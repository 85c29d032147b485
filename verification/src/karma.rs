//! How karma spreads: every soul is swayed by the souls around it, and all
//! souls change at once.

use vstd::prelude::*;
use vstd::relations::injective_on;
use vstd::seq_lib::seq_to_set_is_finite;
use vstd::set_lib::{
    lemma_int_range, lemma_map_size, lemma_set_subset_finite, lemma_subset_equality,
    set_int_range,
};
use crate::fixed::{accrue, accrued};
use crate::geometry::{dist_sq, is_close, Aabb, Point};
use crate::souls::{
    kind_of, KarmaConversion, Soul, SoulKind, ETERNAL_KARMA, KARMA_CAP, KARMA_CAP_ETERNAL,
    KARMA_FLOOR,
};
use crate::spatial::{exact_hits, SpatialIndex};

verus! {

/// A crowd of fifty good neighbours adds one whole unit of karma per second
/// to the rate of conversion, and a larger crowd adds no more.
pub const FULL_CROWD: usize = 50;

/// What each good neighbour adds to the rate of conversion, per second.
pub const CROWD_BONUS: u64 = 20_000;

/// The top of the karma scale: six units with eternals unlocked, two without.
pub open spec fn max_karma(use_eternals: bool) -> int {
    if use_eternals {
        KARMA_CAP_ETERNAL as int
    } else {
        KARMA_CAP as int
    }
}

/// The square around `pos` in which the index is asked for neighbours.
pub open spec fn influence_area(pos: Point, radius: int) -> Aabb {
    Aabb {
        min_x: (pos.x - radius) as i64,
        min_y: (pos.y - radius) as i64,
        max_x: (pos.x + radius) as i64,
        max_y: (pos.y + radius) as i64,
    }
}

/// Soul `j` sways soul `i`: it is another soul, the index reports its box
/// for the square around `i`, and it stands within `radius` of `i`.
pub open spec fn sways(souls: Seq<Soul>, boxes: Seq<Aabb>, i: int, j: int, radius: int) -> bool {
    &&& 0 <= j < souls.len()
    &&& j < boxes.len()
    &&& j != i
    &&& boxes[j].overlaps(influence_area(souls[i].pos, radius))
    &&& dist_sq(souls[j].pos, souls[i].pos) <= radius * radius
}

/// An eternal always pulls towards the good; a luminal does while it follows
/// the player.
pub open spec fn pulls_up(soul: Soul) -> bool {
    ||| kind_of(soul.karma as int) == SoulKind::Eternal
    ||| (kind_of(soul.karma as int) == SoulKind::Luminal && soul.is_following)
}

/// A shadow always pulls towards the bad.
pub open spec fn pulls_down(soul: Soul) -> bool {
    kind_of(soul.karma as int) == SoulKind::Shadow
}

/// The souls that pull soul `i` up.
pub open spec fn good_neighbors(souls: Seq<Soul>, boxes: Seq<Aabb>, i: int, radius: int) -> Set<
    int,
> {
    Set::new(|j: int| sways(souls, boxes, i, j, radius) && pulls_up(souls[j]))
}

/// The souls that pull soul `i` down.
pub open spec fn bad_neighbors(souls: Seq<Soul>, boxes: Seq<Aabb>, i: int, radius: int) -> Set<
    int,
> {
    Set::new(|j: int| sways(souls, boxes, i, j, radius) && pulls_down(souls[j]))
}

/// What a crowd of `good` neighbours adds to the rate of conversion.
pub open spec fn crowd_bonus(good: nat) -> int {
    if good >= FULL_CROWD {
        FULL_CROWD * CROWD_BONUS
    } else {
        good * CROWD_BONUS
    }
}

/// `value` brought into `[low, high]`.
pub open spec fn clamped(value: int, low: int, high: int) -> int {
    if value < low {
        low
    } else if value > high {
        high
    } else {
        value
    }
}

/// The karma of a soul after `dt` ticks among `good` neighbours pulling up
/// and `bad` ones pulling down.
///
/// An eternal keeps its karma. Any other soul first drifts by the rate of
/// expiry, upwards while it follows the player and downwards otherwise. If
/// more neighbours pull down than up, it then loses karma at a fifth of the
/// rate of conversion; if more pull up, it gains at the rate of conversion
/// raised by the crowd's bonus. The outcome is brought into the scale.
pub open spec fn next_karma(
    karma: int,
    following: bool,
    good: nat,
    bad: nat,
    dt: int,
    rate: int,
    expire_rate: int,
    use_eternals: bool,
) -> int {
    if karma >= ETERNAL_KARMA {
        karma
    } else {
        let drift = accrued(expire_rate, dt);
        let start = if following {
            karma + drift
        } else {
            karma - drift
        };
        let swayed = if bad > good {
            start - accrued(rate / 5, dt)
        } else if good > bad {
            start + accrued(rate + crowd_bonus(good), dt)
        } else {
            start
        };
        clamped(swayed, KARMA_FLOOR as int, max_karma(use_eternals))
    }
}

/// The mark a soul carries after a frame: which side outnumbered the other
/// around it. An eternal is never marked.
pub open spec fn next_conversion(karma: int, good: nat, bad: nat) -> KarmaConversion {
    if karma >= ETERNAL_KARMA {
        KarmaConversion::Neutral
    } else if bad > good {
        KarmaConversion::Bad
    } else if good > bad {
        KarmaConversion::Good
    } else {
        KarmaConversion::Neutral
    }
}

/// Soul `i` after one frame of karma, as decided by the souls and boxes of
/// the frame's start.
pub open spec fn karma_outcome(
    souls: Seq<Soul>,
    boxes: Seq<Aabb>,
    i: int,
    dt: int,
    radius: int,
    rate: int,
    expire_rate: int,
    use_eternals: bool,
) -> Soul {
    let soul = souls[i];
    let good = good_neighbors(souls, boxes, i, radius).len();
    let bad = bad_neighbors(souls, boxes, i, radius).len();
    Soul {
        karma: next_karma(
            soul.karma as int,
            soul.is_following,
            good,
            bad,
            dt,
            rate,
            expire_rate,
            use_eternals,
        ) as i64,
        conversion: next_conversion(soul.karma as int, good, bad),
        ..soul
    }
}

/// Whatever the neighbours, a soul below the eternal threshold ends the frame
/// on the karma scale, and an eternal ends it where it was.
pub proof fn lemma_next_karma_in_range(
    karma: int,
    following: bool,
    good: nat,
    bad: nat,
    dt: int,
    rate: int,
    expire_rate: int,
    use_eternals: bool,
)
    ensures
        karma < ETERNAL_KARMA ==> KARMA_FLOOR <= next_karma(
            karma,
            following,
            good,
            bad,
            dt,
            rate,
            expire_rate,
            use_eternals,
        ) <= max_karma(use_eternals),
        karma >= ETERNAL_KARMA ==> next_karma(
            karma,
            following,
            good,
            bad,
            dt,
            rate,
            expire_rate,
            use_eternals,
        ) == karma,
{
}

/// `order` is a rearrangement of the positions below its length: it lists
/// each of them exactly once.
pub open spec fn is_rearrangement(order: Seq<int>) -> bool {
    &&& forall|k: int| 0 <= k < order.len() ==> 0 <= #[trigger] order[k] < order.len()
    &&& order.no_duplicates()
}

/// `items` stored in another order: position `k` holds what `order[k]` held.
pub open spec fn rearranged<T>(items: Seq<T>, order: Seq<int>) -> Seq<T> {
    Seq::new(order.len(), |k: int| items[order[k]])
}

/// A rearrangement reaches every position.
pub proof fn lemma_rearrangement_reaches(order: Seq<int>, target: int)
    requires
        is_rearrangement(order),
        0 <= target < order.len(),
    ensures
        exists|j: int| 0 <= j < order.len() && order[j] == target,
{
    let all = set_int_range(0, order.len() as int);
    lemma_int_range(0, order.len() as int);
    order.unique_seq_to_set();
    seq_to_set_is_finite(order);
    assert(order.to_set().subset_of(all)) by {
        assert forall|v: int| order.to_set().contains(v) implies all.contains(v) by {
            let j = choose|j: int| 0 <= j < order.len() && order[j] == v;
        }
    }
    lemma_subset_equality(order.to_set(), all);
    assert(all.contains(target));
    assert(order.to_set().contains(target));
    assert(order.contains(target));
}

/// Storing the souls in another order leaves each tally as it was.
proof fn lemma_tally_ignores_storage_order(
    souls: Seq<Soul>,
    boxes: Seq<Aabb>,
    order: Seq<int>,
    k: int,
    radius: int,
    up: bool,
)
    requires
        is_rearrangement(order),
        order.len() == souls.len(),
        order.len() == boxes.len(),
        0 <= k < order.len(),
    ensures
        up ==> good_neighbors(rearranged(souls, order), rearranged(boxes, order), k, radius).len()
            == good_neighbors(souls, boxes, order[k], radius).len(),
        !up ==> bad_neighbors(rearranged(souls, order), rearranged(boxes, order), k, radius).len()
            == bad_neighbors(souls, boxes, order[k], radius).len(),
{
    let moved_souls = rearranged(souls, order);
    let moved_boxes = rearranged(boxes, order);
    let there = if up {
        good_neighbors(moved_souls, moved_boxes, k, radius)
    } else {
        bad_neighbors(moved_souls, moved_boxes, k, radius)
    };
    let here = if up {
        good_neighbors(souls, boxes, order[k], radius)
    } else {
        bad_neighbors(souls, boxes, order[k], radius)
    };
    let all = set_int_range(0, order.len() as int);
    lemma_int_range(0, order.len() as int);
    assert(there.subset_of(all));
    lemma_set_subset_finite(all, there);
    let f = |j: int| order[j];
    assert(injective_on(f, there)) by {
        assert forall|a: int, b: int|
            there.contains(a) && there.contains(b) && #[trigger] f(a) == #[trigger] f(
                b,
            ) implies a == b by {
            if a != b {
                assert(order[a] != order[b]);
            }
        }
    }
    assert forall|v: int| there.map(f).contains(v) implies here.contains(v) by {
        let j = choose|j: int| there.contains(j) && f(j) == v;
        assert(moved_souls[j] == souls[order[j]]);
        assert(moved_boxes[j] == boxes[order[j]]);
        assert(moved_souls[k] == souls[order[k]]);
        if order[j] == order[k] {
            assert(j == k);
        }
        assert(sways(souls, boxes, order[k], v, radius));
    }
    assert forall|v: int| here.contains(v) implies there.map(f).contains(v) by {
        lemma_rearrangement_reaches(order, v);
        let j = choose|j: int| 0 <= j < order.len() && order[j] == v;
        assert(moved_souls[j] == souls[order[j]]);
        assert(moved_boxes[j] == boxes[order[j]]);
        assert(moved_souls[k] == souls[order[k]]);
        assert(sways(moved_souls, moved_boxes, k, j, radius));
        assert(there.contains(j) && f(j) == v);
    }
    assert(there.map(f) =~= here);
    lemma_map_size(there, here, f);
}

/// The karma engine does not care in which order the souls are stored: the
/// soul that a rearrangement puts at position `k` fares exactly as it did at
/// its old position, the boxes being rearranged alike.
pub proof fn lemma_karma_ignores_storage_order(
    souls: Seq<Soul>,
    boxes: Seq<Aabb>,
    order: Seq<int>,
    k: int,
    dt: int,
    radius: int,
    rate: int,
    expire_rate: int,
    use_eternals: bool,
)
    requires
        is_rearrangement(order),
        order.len() == souls.len(),
        order.len() == boxes.len(),
        0 <= k < order.len(),
    ensures
        karma_outcome(
            rearranged(souls, order),
            rearranged(boxes, order),
            k,
            dt,
            radius,
            rate,
            expire_rate,
            use_eternals,
        ) == karma_outcome(souls, boxes, order[k], dt, radius, rate, expire_rate, use_eternals),
{
    lemma_tally_ignores_storage_order(souls, boxes, order, k, radius, true);
    lemma_tally_ignores_storage_order(souls, boxes, order, k, radius, false);
    assert(rearranged(souls, order)[k] == souls[order[k]]);
}

/// Counts the neighbours that pull soul `i` up and those that pull it down.
pub fn count_neighbors(souls: &Vec<Soul>, i: usize, radius: u32, aabb_index: &SpatialIndex) -> (tally:
    (usize, usize))
    requires
        i < souls.len(),
        aabb_index@.len() == souls.len(),
        souls[i as int].pos.in_world(),
    ensures
        good_neighbors(souls@, aabb_index@, i as int, radius as int).finite(),
        bad_neighbors(souls@, aabb_index@, i as int, radius as int).finite(),
        tally.0 == good_neighbors(souls@, aabb_index@, i as int, radius as int).len(),
        tally.1 == bad_neighbors(souls@, aabb_index@, i as int, radius as int).len(),
{
    let pos = souls[i].pos;
    let area = Aabb {
        min_x: pos.x - radius as i64,
        min_y: pos.y - radius as i64,
        max_x: pos.x + radius as i64,
        max_y: pos.y + radius as i64,
    };
    assert(area == influence_area(pos, radius as int));
    let hits = aabb_index.query(area);
    let mut good: usize = 0;
    let mut bad: usize = 0;
    let ghost mut up: Set<int> = Set::empty();
    let ghost mut down: Set<int> = Set::empty();
    let mut t: usize = 0;
    while t < hits.len()
        invariant
            t <= hits.len(),
            i < souls.len(),
            aabb_index@.len() == souls.len(),
            pos == souls[i as int].pos,
            area == influence_area(pos, radius as int),
            exact_hits(aabb_index@, area, hits@),
            up.finite(),
            down.finite(),
            good == up.len(),
            bad == down.len(),
            good <= t,
            bad <= t,
            forall|j: int|
                up.contains(j) <==> (exists|s: int| 0 <= s < t && hits[s] == j) && sways(
                    souls@,
                    aabb_index@,
                    i as int,
                    j,
                    radius as int,
                ) && pulls_up(souls[j]),
            forall|j: int|
                down.contains(j) <==> (exists|s: int| 0 <= s < t && hits[s] == j) && sways(
                    souls@,
                    aabb_index@,
                    i as int,
                    j,
                    radius as int,
                ) && pulls_down(souls[j]),
        decreases hits.len() - t,
    {
        let n = hits[t];
        proof {
            assert(hits@.contains(n));
            assert forall|s: int| 0 <= s < t implies hits[s] != n by {
                assert(hits@[s] != hits@[t as int]);
            }
        }
        let ghost up_before = up;
        let ghost down_before = down;
        if n != i {
            let other = &souls[n];
            if is_close(other.pos, pos, radius) {
                assert(sways(souls@, aabb_index@, i as int, n as int, radius as int));
                match other.kind() {
                    SoulKind::Shadow => {
                        bad += 1;
                        proof {
                            down = down.insert(n as int);
                        }
                    },
                    SoulKind::Luminal => {
                        if other.is_following {
                            good += 1;
                            proof {
                                up = up.insert(n as int);
                            }
                        }
                    },
                    SoulKind::Eternal => {
                        good += 1;
                        proof {
                            up = up.insert(n as int);
                        }
                    },
                    SoulKind::Neutral => {},
                }
            }
        }
        t += 1;
        proof {
            assert forall|j: int|
                up.contains(j) <==> (exists|s: int| 0 <= s < t && hits[s] == j) && sways(
                    souls@,
                    aabb_index@,
                    i as int,
                    j,
                    radius as int,
                ) && pulls_up(souls[j]) by {
                if j == n as int {
                    assert(hits[t - 1] == j);
                } else {
                    if exists|s: int| 0 <= s < t && hits[s] == j {
                        let s = choose|s: int| 0 <= s < t && hits[s] == j;
                        assert(0 <= s < t - 1 && hits[s] == j);
                    }
                }
            }
            assert forall|j: int|
                down.contains(j) <==> (exists|s: int| 0 <= s < t && hits[s] == j) && sways(
                    souls@,
                    aabb_index@,
                    i as int,
                    j,
                    radius as int,
                ) && pulls_down(souls[j]) by {
                if j == n as int {
                    assert(hits[t - 1] == j);
                } else {
                    if exists|s: int| 0 <= s < t && hits[s] == j {
                        let s = choose|s: int| 0 <= s < t && hits[s] == j;
                        assert(0 <= s < t - 1 && hits[s] == j);
                    }
                }
            }
        }
    }
    proof {
        let goods = good_neighbors(souls@, aabb_index@, i as int, radius as int);
        let bads = bad_neighbors(souls@, aabb_index@, i as int, radius as int);
        assert forall|j: int| goods.contains(j) implies up.contains(j) by {
            assert(hits@.contains(j as usize));
            let s = choose|s: int| 0 <= s < hits@.len() && hits@[s] == j as usize;
            assert(0 <= s < t && hits[s] == j);
        }
        assert forall|j: int| bads.contains(j) implies down.contains(j) by {
            assert(hits@.contains(j as usize));
            let s = choose|s: int| 0 <= s < hits@.len() && hits@[s] == j as usize;
            assert(0 <= s < t && hits[s] == j);
        }
        assert(up =~= goods);
        assert(down =~= bads);
    }
    (good, bad)
}

/// Computes the karma and the mark of one soul from the two tallies of its
/// neighbours.
pub fn settle_karma(
    soul: &Soul,
    good: usize,
    bad: usize,
    dt: u32,
    rate: u32,
    expire_rate: u32,
    use_eternals: bool,
) -> (settled: (i64, KarmaConversion))
    ensures
        settled.0 == next_karma(
            soul.karma as int,
            soul.is_following,
            good as nat,
            bad as nat,
            dt as int,
            rate as int,
            expire_rate as int,
            use_eternals,
        ),
        settled.1 == next_conversion(soul.karma as int, good as nat, bad as nat),
{
    if soul.karma >= ETERNAL_KARMA {
        return (soul.karma, KarmaConversion::Neutral);
    }
    let max_karma: i128 = if use_eternals {
        KARMA_CAP_ETERNAL as i128
    } else {
        KARMA_CAP as i128
    };
    let drift: i128 = accrue(expire_rate as u64, dt) as i128;
    let start: i128 = if soul.is_following {
        soul.karma as i128 + drift
    } else {
        soul.karma as i128 - drift
    };
    let mut conversion = KarmaConversion::Neutral;
    let mut karma: i128 = start;
    if bad > good {
        let new_rate: u64 = (rate / 5) as u64;
        karma = start - accrue(new_rate, dt) as i128;
        conversion = KarmaConversion::Bad;
    } else if good > bad {
        let extra: u64 = if good >= FULL_CROWD {
            (FULL_CROWD as u64) * CROWD_BONUS
        } else {
            (good as u64) * CROWD_BONUS
        };
        let new_rate: u64 = rate as u64 + extra;
        karma = start + accrue(new_rate, dt) as i128;
        conversion = KarmaConversion::Good;
    }
    let settled: i128 = if karma < KARMA_FLOOR as i128 {
        KARMA_FLOOR as i128
    } else if karma > max_karma {
        max_karma
    } else {
        karma
    };
    (settled as i64, conversion)
}

/// Advances the karma of every soul by one frame of `dt` ticks.
///
/// Every outcome is decided from the souls as they stand when the call is
/// made, and only then written back, so that no soul sees the new karma of
/// another. `aabb_index` is the frame's index, with one box for each soul.
pub fn update_karma(
    souls: &mut Vec<Soul>,
    dt: u32,
    radius: u32,
    rate: u32,
    expire_rate: u32,
    use_eternals: bool,
    aabb_index: &SpatialIndex,
)
    requires
        aabb_index@.len() == old(souls).len(),
        forall|i: int| 0 <= i < old(souls).len() ==> (#[trigger] old(souls)[i]).pos.in_world(),
    ensures
        final(souls).len() == old(souls).len(),
        forall|i: int|
            0 <= i < old(souls).len() ==> #[trigger] final(souls)[i] == karma_outcome(
                old(souls)@,
                aabb_index@,
                i,
                dt as int,
                radius as int,
                rate as int,
                expire_rate as int,
                use_eternals,
            ),
{
    let ghost before = souls@;
    let count = souls.len();
    let mut karma_updates: Vec<(i64, KarmaConversion)> = Vec::new();
    let mut i: usize = 0;
    while i < count
        invariant
            i <= count,
            count == souls.len(),
            souls@ == before,
            aabb_index@.len() == count,
            karma_updates.len() == i,
            forall|k: int| 0 <= k < count ==> (#[trigger] before[k]).pos.in_world(),
            forall|k: int|
                0 <= k < i ==> {
                    let outcome = karma_outcome(
                        before,
                        aabb_index@,
                        k,
                        dt as int,
                        radius as int,
                        rate as int,
                        expire_rate as int,
                        use_eternals,
                    );
                    (#[trigger] karma_updates[k]) == (outcome.karma, outcome.conversion)
                },
        decreases count - i,
    {
        let tally = count_neighbors(souls, i, radius, aabb_index);
        let settled = settle_karma(
            &souls[i],
            tally.0,
            tally.1,
            dt,
            rate,
            expire_rate,
            use_eternals,
        );
        karma_updates.push(settled);
        i += 1;
    }
    let mut k: usize = 0;
    while k < count
        invariant
            k <= count,
            count == souls.len(),
            count == before.len(),
            karma_updates.len() == count,
            forall|j: int| k <= j < count ==> souls[j] == before[j],
            forall|j: int|
                0 <= j < count ==> {
                    let outcome = karma_outcome(
                        before,
                        aabb_index@,
                        j,
                        dt as int,
                        radius as int,
                        rate as int,
                        expire_rate as int,
                        use_eternals,
                    );
                    (#[trigger] karma_updates[j]) == (outcome.karma, outcome.conversion)
                },
            forall|j: int|
                0 <= j < k ==> #[trigger] souls[j] == karma_outcome(
                    before,
                    aabb_index@,
                    j,
                    dt as int,
                    radius as int,
                    rate as int,
                    expire_rate as int,
                    use_eternals,
                ),
        decreases count - k,
    {
        let (new_karma, conversion) = karma_updates[k];
        let soul = souls[k];
        souls.set(k, Soul { karma: new_karma, conversion, ..soul });
        k += 1;
    }
}

} // verus!
