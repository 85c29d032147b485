//! The whole simulation: the souls, the wave scheduler, the energy economy
//! and the blessings, advanced frame by frame.

use vstd::prelude::*;
use crate::fixed::{accrue, accrued};
use crate::geometry::{
    dist_sq, is_close, move_towards, moved_towards, Aabb, Point, WORLD_LIMIT,
};
use crate::karma::{
    clamped, karma_outcome, lemma_next_karma_in_range, max_karma, update_karma,
};
use crate::overlap::{
    avoid_overlap, boxes_of, overlap_pass, pass_has_room, soul_box, SOUL_SIZE,
};
use crate::params::{lemma_blend_between, params_end, params_start, Blessing, Blessings, Params};
use crate::price::price_of;
use crate::souls::{
    kind_of, wandered, KarmaConversion, Soul, SoulKind, KARMA_CAP_ETERNAL, KARMA_FLOOR,
    KARMA_ONE,
};
use crate::spatial::{SpatialIndex, MAX_INDEXED};

verus! {

/// The side of the square map.
pub const MAP_SIZE: i64 = 1_000_000;

/// The separation that souls are pushed towards.
pub const GRID_SIZE: u32 = 20_000;

/// How far a soul's influence on the karma of others reaches.
pub const KARMA_CHANGE_RADIUS: u32 = 40_000;

/// The wait for the first wave, and between the first waves.
pub const INITIAL_SPAWN_TIME: u32 = 20_000_000;

/// By how much the wait between waves shrinks with each wave.
pub const SPAWN_TIME_STEP: u32 = 500_000;

/// The shortest wait between waves.
pub const MIN_SPAWN_TIME: u32 = 5_000_000;

/// The largest wave.
pub const MAX_WAVE: usize = 20;

/// Souls are born within this distance of the middle of the map.
pub const SPAWN_RADIUS: i64 = 400_000;

/// The most souls the simulation holds: as many as an index holds, and few
/// enough that a pass of pushes over souls on the map keeps them all in the
/// world.
pub open spec fn max_souls() -> int {
    let by_world = (WORLD_LIMIT - MAP_SIZE) / (GRID_SIZE as int);
    if by_world <= MAX_INDEXED {
        by_world
    } else {
        MAX_INDEXED as int
    }
}

/// Computes `max_souls`.
pub fn souls_limit() -> (limit: usize)
    ensures
        limit == max_souls(),
{
    let by_world: u64 = ((WORLD_LIMIT - MAP_SIZE) / (GRID_SIZE as i64)) as u64;
    if by_world <= MAX_INDEXED as u64 {
        by_world as usize
    } else {
        MAX_INDEXED
    }
}

/// The chance that goes into the birth of one soul.
#[derive(Clone, Copy, Debug)]
pub struct SpawnDraw {
    /// Picks the karma within the range of the kind asked for: 0 gives the
    /// lowest karma of the range, and larger rolls give more.
    pub karma_roll: u32,
    /// Where the soul is born, seen from the middle of the map.
    pub offset: Point,
}

impl SpawnDraw {
    /// The birthplace lies within `SPAWN_RADIUS` of the middle of the map.
    pub open spec fn valid(self) -> bool {
        dist_sq(self.offset, Point { x: 0, y: 0 }) <= SPAWN_RADIUS * SPAWN_RADIUS
    }

    /// Whether the draw is valid.
    pub fn is_valid(&self) -> (ok: bool)
        ensures
            ok == self.valid(),
    {
        is_close(self.offset, Point { x: 0, y: 0 }, SPAWN_RADIUS as u32)
    }
}

/// What the outside world hands the simulation for one frame.
pub struct FrameInput {
    /// The ticks since the last frame.
    pub dt: u32,
    /// Where the player points, in world coordinates.
    pub pointer: Point,
    /// Whether the player is guiding souls.
    pub is_guiding: bool,
    /// The chance for the souls of a wave, should one arrive in this frame.
    pub spawn_draws: Vec<SpawnDraw>,
    /// The chance for the idle movement of each soul, in the order in which
    /// the souls are stored: two rolls, of which each unit stands for
    /// `IDLE_SPEED` along its axis.
    pub jitter: Vec<(i32, i32)>,
}

/// The two ends of the range from which the karma of a newborn is drawn.
/// The upper end is never drawn; the lower end is, but for a neutral soul,
/// whose karma lies strictly between the two. A soul asked to be a shadow may
/// still be born neutral.
pub open spec fn karma_range(kind: Option<SoulKind>) -> (int, int) {
    match kind {
        Some(SoulKind::Luminal) => (1_000_000, 2_000_000),
        Some(SoulKind::Neutral) => (-900_000, 900_000),
        Some(SoulKind::Shadow) => (-2_000_000, 1_000_000),
        Some(SoulKind::Eternal) => (5_000_000, 6_000_000),
        None => (-2_000_000, 2_000_000),
    }
}

/// The lowest karma that can be drawn for `kind`: the lower end of the
/// range, or the karma just above it for a neutral soul.
pub open spec fn lowest_draw(kind: Option<SoulKind>) -> int {
    if kind == Some(SoulKind::Neutral) {
        karma_range(kind).0 + 1
    } else {
        karma_range(kind).0
    }
}

/// The karma that `roll` picks from the range of `kind`: the lowest that can
/// be drawn for a roll of 0, and more for larger rolls.
pub open spec fn drawn_karma(kind: Option<SoulKind>, roll: u32) -> int {
    let low = lowest_draw(kind);
    low + roll * (karma_range(kind).1 - low) / 0x1_0000_0000
}

/// A drawn karma lies in the range it is drawn from, and for a neutral soul
/// strictly above the lower end.
pub proof fn lemma_drawn_karma_in_range(kind: Option<SoulKind>, roll: u32)
    ensures
        lowest_draw(kind) <= drawn_karma(kind, roll) < karma_range(kind).1,
        karma_range(kind).0 <= drawn_karma(kind, roll),
        kind == Some(SoulKind::Neutral) ==> karma_range(kind).0 < drawn_karma(kind, roll),
        kind == Some(SoulKind::Neutral) ==> kind_of(drawn_karma(kind, roll)) == SoulKind::Neutral,
        kind == Some(SoulKind::Luminal) ==> kind_of(drawn_karma(kind, roll)) == SoulKind::Luminal,
        kind == Some(SoulKind::Eternal) ==> kind_of(drawn_karma(kind, roll)) == SoulKind::Eternal,
{
    let low = lowest_draw(kind);
    let high = karma_range(kind).1;
    let span = high - low;
    assert(0 <= roll * span < 0x1_0000_0000 * span) by (nonlinear_arith)
        requires
            0 <= roll < 0x1_0000_0000,
            0 < span,
    ;
    assert(0x1_0000_0000 * span == span * 0x1_0000_0000) by (nonlinear_arith);
    vstd::arithmetic::div_mod::lemma_div_pos_is_pos(roll * span, 0x1_0000_0000);
    vstd::arithmetic::div_mod::lemma_div_by_multiple_is_strongly_ordered(
        roll * span,
        span * 0x1_0000_0000,
        span,
        0x1_0000_0000,
    );
    vstd::arithmetic::div_mod::lemma_div_multiples_vanish(span, 0x1_0000_0000);
}

/// Draws the karma of a newborn.
pub fn draw_karma(kind: Option<SoulKind>, roll: u32) -> (karma: i64)
    ensures
        karma == drawn_karma(kind, roll),
{
    let (low, high): (i64, i64) = match kind {
        Some(SoulKind::Luminal) => (1_000_000, 2_000_000),
        Some(SoulKind::Neutral) => (-900_000 + 1, 900_000),
        Some(SoulKind::Shadow) => (-2_000_000, 1_000_000),
        Some(SoulKind::Eternal) => (5_000_000, 6_000_000),
        None => (-2_000_000, 2_000_000),
    };
    proof {
        lemma_drawn_karma_in_range(kind, roll);
    }
    let span: i64 = high - low;
    assert(0 <= roll * span <= 0xffff_ffff * 4_000_000) by (nonlinear_arith)
        requires
            0 <= roll <= 0xffff_ffff,
            0 < span <= 4_000_000,
    ;
    low + (roll as i64 * span) / 0x1_0000_0000
}

/// `value` moved to the nearest whole pixel, halves going up.
pub open spec fn snapped(value: int) -> int {
    (value + 500) / 1000 * 1000
}

/// Where a newborn stands: as far from the middle of the map as its draw
/// says, on whole pixels.
pub open spec fn birthplace(offset: Point) -> Point {
    Point {
        x: snapped(MAP_SIZE / 2 + offset.x) as i64,
        y: snapped(MAP_SIZE / 2 + offset.y) as i64,
    }
}

/// The soul that `draw` gives birth to.
pub open spec fn newborn(id: u64, kind: Option<SoulKind>, draw: SpawnDraw, energy_time: u32)
    -> Soul {
    Soul {
        id,
        karma: drawn_karma(kind, draw.karma_roll) as i64,
        pos: birthplace(draw.offset),
        is_following: false,
        energy_timer: energy_time as i64,
        conversion: KarmaConversion::Neutral,
    }
}

/// A valid draw puts its soul on the map.
pub proof fn lemma_birthplace_on_map(draw: SpawnDraw)
    requires
        draw.valid(),
    ensures
        on_map(birthplace(draw.offset)),
{
    crate::geometry::lemma_dist_covers_axes(
        draw.offset.x as int,
        draw.offset.y as int,
        SPAWN_RADIUS as int,
    );
}

/// The point lies on the map, its rim included.
pub open spec fn on_map(p: Point) -> bool {
    0 <= p.x <= MAP_SIZE && 0 <= p.y <= MAP_SIZE
}

/// Gives birth to one soul.
pub fn spawn_soul(id: u64, kind: Option<SoulKind>, draw: SpawnDraw, energy_time: u32) -> (soul:
    Soul)
    requires
        draw.valid(),
    ensures
        soul == newborn(id, kind, draw, energy_time),
        on_map(soul.pos),
        lowest_draw(kind) <= soul.karma < karma_range(kind).1,
        kind == Some(SoulKind::Neutral) ==> karma_range(kind).0 < soul.karma,
{
    proof {
        lemma_birthplace_on_map(draw);
        lemma_drawn_karma_in_range(kind, draw.karma_roll);
        crate::geometry::lemma_dist_covers_axes(
            draw.offset.x as int,
            draw.offset.y as int,
            SPAWN_RADIUS as int,
        );
    }
    let x: i64 = (MAP_SIZE / 2 + draw.offset.x + 500) / 1000 * 1000;
    let y: i64 = (MAP_SIZE / 2 + draw.offset.y + 500) / 1000 * 1000;
    Soul {
        id,
        karma: draw_karma(kind, draw.karma_roll),
        pos: Point { x, y },
        is_following: false,
        energy_timer: energy_time as i64,
        conversion: KarmaConversion::Neutral,
    }
}

/// The souls once `n` more have been born, of the kind asked for and from
/// the first `n` draws. The newborns get the ids that follow `ids`.
pub open spec fn spawned(
    souls: Seq<Soul>,
    ids: u64,
    kind: Option<SoulKind>,
    draws: Seq<SpawnDraw>,
    n: nat,
    energy_time: u32,
) -> Seq<Soul> {
    souls + Seq::new(n, |k: int| newborn((ids + k) as u64, kind, draws[k], energy_time))
}

/// The wait between waves that follows a wait of `spawn_time`.
pub open spec fn next_spawn_time(spawn_time: u32) -> u32 {
    if spawn_time - SPAWN_TIME_STEP >= MIN_SPAWN_TIME {
        (spawn_time - SPAWN_TIME_STEP) as u32
    } else {
        MIN_SPAWN_TIME
    }
}

/// The size of the wave that follows a wave of `spawn_num`.
pub open spec fn next_wave_size(spawn_num: usize) -> usize {
    if spawn_num + 1 <= MAX_WAVE {
        (spawn_num + 1) as usize
    } else {
        MAX_WAVE
    }
}

/// The souls that a wave of size `spawn_num` brings when `blocked` of them
/// are held back: never fewer than one.
pub open spec fn wave_souls(spawn_num: usize, blocked: usize) -> usize {
    if spawn_num > blocked {
        (spawn_num - blocked) as usize
    } else {
        1
    }
}

/// A soul after the movement of one frame. A good soul within the sacred
/// radius of the pointer follows it while the player guides, and takes a
/// step towards it. Every soul then wanders as its jitter says, and is kept
/// on the map.
pub open spec fn moved_soul(
    soul: Soul,
    dt: u32,
    pointer: Point,
    is_guiding: bool,
    params: Params,
    jitter: (i32, i32),
) -> Soul {
    let is_following = is_guiding && soul.karma >= KARMA_ONE && dist_sq(soul.pos, pointer)
        <= params.sacred_radius * params.sacred_radius;
    let guided = if is_following {
        moved_towards(soul.pos, pointer, accrued(params.following_speed as int, dt as int))
    } else {
        soul.pos
    };
    let strayed = wandered(guided, jitter, dt);
    Soul {
        pos: Point {
            x: clamped(strayed.x as int, 0, MAP_SIZE as int) as i64,
            y: clamped(strayed.y as int, 0, MAP_SIZE as int) as i64,
        },
        is_following,
        ..soul
    }
}

/// Whether a soul yields energy in a frame of `dt` ticks: it is good, and
/// its timer runs out.
pub open spec fn yields(soul: Soul, dt: u32) -> bool {
    soul.karma >= KARMA_ONE && soul.energy_timer - dt <= 0
}

/// A soul after the energy economy of one frame: the timer of a good soul
/// runs down by `dt`, and starts again from `energy_time` when it runs out.
pub open spec fn ticked(soul: Soul, dt: u32, energy_time: u32) -> Soul {
    if soul.karma >= KARMA_ONE {
        Soul {
            energy_timer: if soul.energy_timer - dt <= 0 {
                energy_time as i64
            } else {
                (soul.energy_timer - dt) as i64
            },
            ..soul
        }
    } else {
        soul
    }
}

/// Where energy is collected in a frame among the first `k` souls, in the
/// order of the souls.
pub open spec fn collected(souls: Seq<Soul>, dt: u32, k: int) -> Seq<Point>
    decreases k,
{
    if k <= 0 {
        Seq::empty()
    } else if yields(souls[k - 1], dt) {
        collected(souls, dt, k - 1).push(souls[k - 1].pos)
    } else {
        collected(souls, dt, k - 1)
    }
}

/// How many of the first `k` souls are good, if `good` is set, or bad.
pub open spec fn headcount(souls: Seq<Soul>, good: bool, k: int) -> nat
    decreases k,
{
    if k <= 0 {
        0
    } else {
        let counts = if good {
            souls[k - 1].karma >= KARMA_ONE
        } else {
            souls[k - 1].karma <= -KARMA_ONE
        };
        headcount(souls, good, k - 1) + if counts {
            1nat
        } else {
            0nat
        }
    }
}

/// The share of `count` in `total`, in millionths; nothing has a share in
/// nothing.
pub open spec fn share(count: nat, total: nat) -> nat {
    if total == 0 {
        0
    } else {
        count * 1_000_000 / total
    }
}

/// No more souls are counted than looked at.
pub proof fn lemma_headcount_bound(souls: Seq<Soul>, good: bool, k: int)
    requires
        0 <= k,
    ensures
        headcount(souls, good, k) <= k,
    decreases k,
{
    if k > 0 {
        lemma_headcount_bound(souls, good, k - 1);
    }
}

/// Moves every soul as `moved_soul` says, each with its own jitter.
pub fn move_souls(
    souls: &mut Vec<Soul>,
    dt: u32,
    pointer: Point,
    is_guiding: bool,
    params: &Params,
    jitter: &Vec<(i32, i32)>,
)
    requires
        pointer.in_world(),
        old(souls).len() <= jitter.len(),
        forall|k: int| 0 <= k < old(souls).len() ==> (#[trigger] old(souls)[k]).pos.in_world(),
    ensures
        final(souls).len() == old(souls).len(),
        forall|k: int|
            0 <= k < old(souls).len() ==> #[trigger] final(souls)[k] == moved_soul(
                old(souls)[k],
                dt,
                pointer,
                is_guiding,
                *params,
                jitter[k],
            ),
        forall|k: int| 0 <= k < final(souls).len() ==> on_map((#[trigger] final(souls)[k]).pos),
{
    let count = souls.len();
    let step: u128 = accrue(params.following_speed as u64, dt);
    let mut k: usize = 0;
    while k < count
        invariant
            k <= count,
            count == souls.len(),
            count == old(souls).len(),
            count <= jitter.len(),
            pointer.in_world(),
            step == accrued(params.following_speed as int, dt as int),
            step <= 0xffff_ffff * 4295,
            forall|j: int| k <= j < count ==> souls[j] == old(souls)[j],
            forall|j: int| 0 <= j < count ==> (#[trigger] old(souls)[j]).pos.in_world(),
            forall|j: int|
                0 <= j < k ==> #[trigger] souls[j] == moved_soul(
                    old(souls)[j],
                    dt,
                    pointer,
                    is_guiding,
                    *params,
                    jitter[j],
                ),
            forall|j: int| 0 <= j < k ==> on_map((#[trigger] souls[j]).pos),
        decreases count - k,
    {
        let mut soul = souls[k];
        assert(old(souls)[k as int].pos.in_world());
        soul.is_following = is_guiding && soul.is_good() && is_close(
            soul.pos,
            pointer,
            params.sacred_radius,
        );
        if soul.is_following {
            soul.pos = move_towards(soul.pos, pointer, step as u64);
        }
        soul.idle_movement(jitter[k], dt);
        let x: i64 = if soul.pos.x < 0 {
            0
        } else if soul.pos.x > MAP_SIZE {
            MAP_SIZE
        } else {
            soul.pos.x
        };
        let y: i64 = if soul.pos.y < 0 {
            0
        } else if soul.pos.y > MAP_SIZE {
            MAP_SIZE
        } else {
            soul.pos.y
        };
        soul.pos = Point { x, y };
        souls.set(k, soul);
        k += 1;
    }
}

/// Builds the index of a frame from where the souls stand.
pub fn index_souls(souls: &Vec<Soul>) -> (index: SpatialIndex)
    requires
        souls.len() <= MAX_INDEXED,
        forall|k: int| 0 <= k < souls.len() ==> (#[trigger] souls[k]).pos.in_world(),
    ensures
        index@ == boxes_of(souls@),
{
    let mut boxes: Vec<Aabb> = Vec::new();
    let mut k: usize = 0;
    while k < souls.len()
        invariant
            k <= souls.len(),
            boxes.len() == k,
            forall|j: int| 0 <= j < souls.len() ==> (#[trigger] souls[j]).pos.in_world(),
            forall|j: int| 0 <= j < k ==> #[trigger] boxes[j] == soul_box(souls[j].pos),
            forall|j: int| 0 <= j < k ==> (#[trigger] boxes[j]).valid(),
        decreases souls.len() - k,
    {
        let pos = souls[k].pos;
        assert(souls[k as int].pos.in_world());
        boxes.push(
            Aabb { min_x: pos.x, min_y: pos.y, max_x: pos.x + SOUL_SIZE, max_y: pos.y + SOUL_SIZE },
        );
        k += 1;
    }
    let index = SpatialIndex::build(&boxes);
    assert(index@ =~= boxes_of(souls@));
    index
}

/// Runs the energy economy of one frame over the souls, and lists where
/// energy is collected.
pub fn collect_energy(souls: &mut Vec<Soul>, dt: u32, energy_time: u32) -> (events: Vec<Point>)
    requires
        forall|k: int|
            0 <= k < old(souls).len() ==> (#[trigger] old(souls)[k]).energy_timer >= -0x7fff_ffff,
    ensures
        final(souls).len() == old(souls).len(),
        forall|k: int|
            0 <= k < old(souls).len() ==> #[trigger] final(souls)[k] == ticked(
                old(souls)[k],
                dt,
                energy_time,
            ),
        events@ == collected(old(souls)@, dt, old(souls).len() as int),
        events.len() <= old(souls).len(),
{
    let count = souls.len();
    let mut events: Vec<Point> = Vec::new();
    let mut k: usize = 0;
    while k < count
        invariant
            k <= count,
            count == souls.len(),
            count == old(souls).len(),
            forall|j: int| k <= j < count ==> souls[j] == old(souls)[j],
            forall|j: int|
                0 <= j < count ==> (#[trigger] old(souls)[j]).energy_timer >= -0x7fff_ffff,
            forall|j: int|
                0 <= j < k ==> #[trigger] souls[j] == ticked(old(souls)[j], dt, energy_time),
            events@ == collected(old(souls)@, dt, k as int),
            events.len() <= k,
        decreases count - k,
    {
        let soul = souls[k];
        assert(old(souls)[k as int].energy_timer >= -0x7fff_ffff);
        if soul.is_good() {
            let left: i64 = soul.energy_timer - dt as i64;
            if left <= 0 {
                souls.set(k, Soul { energy_timer: energy_time as i64, ..soul });
                events.push(soul.pos);
            } else {
                souls.set(k, Soul { energy_timer: left, ..soul });
            }
        }
        k += 1;
    }
    events
}

/// Counts the good souls and the bad ones.
pub fn count_souls(souls: &Vec<Soul>) -> (counts: (usize, usize))
    ensures
        counts.0 == headcount(souls@, true, souls.len() as int),
        counts.1 == headcount(souls@, false, souls.len() as int),
{
    let mut good: usize = 0;
    let mut bad: usize = 0;
    let mut k: usize = 0;
    while k < souls.len()
        invariant
            k <= souls.len(),
            good == headcount(souls@, true, k as int),
            bad == headcount(souls@, false, k as int),
            good <= k,
            bad <= k,
        decreases souls.len() - k,
    {
        if souls[k].is_good() {
            good += 1;
        } else if souls[k].is_bad() {
            bad += 1;
        }
        k += 1;
    }
    (good, bad)
}

/// Computes `share`.
pub fn share_of(count: usize, total: usize) -> (part: u32)
    requires
        count <= total,
    ensures
        part == share(count as nat, total as nat),
        part <= 1_000_000,
{
    if total == 0 {
        return 0;
    }
    assert(count * 1_000_000 <= total * 1_000_000) by (nonlinear_arith)
        requires
            count <= total,
    ;
    proof {
        vstd::arithmetic::div_mod::lemma_div_is_ordered(
            count * 1_000_000,
            total * 1_000_000,
            total as int,
        );
        vstd::arithmetic::div_mod::lemma_div_multiples_vanish(1_000_000, total as int);
        vstd::arithmetic::div_mod::lemma_div_pos_is_pos(count * 1_000_000, total as int);
    }
    ((count as u128 * 1_000_000) / (total as u128)) as u32
}

/// The simulation as the contracts see it.
pub struct World {
    /// The souls alive, in the order of their birth.
    pub souls: Seq<Soul>,
    /// The id that the next soul gets.
    pub ids: u64,
    pub blessings: Blessings,
    /// The tuning in force.
    pub params: Params,
    /// The wait between waves, in ticks.
    pub spawn_time: u32,
    /// The ticks left until the next wave.
    pub spawn_timer: i64,
    /// The size of the last wave.
    pub spawn_num: usize,
    /// The energy gathered and not yet spent.
    pub energy: u64,
    /// The share of good souls among all, in millionths.
    pub good_progress: u32,
    /// The share of bad souls among all, in millionths.
    pub bad_progress: u32,
    /// Where energy was collected since the list was last taken.
    pub energy_positions: Seq<Point>,
}

/// A soul as the simulation keeps it: in the world, on the karma scale, and
/// with time left on its timer.
pub open spec fn sound(soul: Soul) -> bool {
    &&& soul.pos.in_world()
    &&& KARMA_FLOOR <= soul.karma <= KARMA_CAP_ETERNAL
    &&& 0 < soul.energy_timer <= u32::MAX
}

impl World {
    /// What holds of the simulation between any two calls.
    pub open spec fn wf(self) -> bool {
        &&& self.souls.len() <= max_souls()
        &&& forall|k: int| 0 <= k < self.souls.len() ==> sound(#[trigger] self.souls[k])
        &&& forall|k: int| 0 <= k < self.souls.len() ==> (#[trigger] self.souls[k]).id < self.ids
        &&& forall|j: int, k: int|
            0 <= j < k < self.souls.len() ==> (#[trigger] self.souls[j]).id != (
            #[trigger] self.souls[k]).id
        &&& self.blessings.wf()
        &&& self.params == self.blessings.derived()
        &&& MIN_SPAWN_TIME <= self.spawn_time <= INITIAL_SPAWN_TIME
        &&& 0 < self.spawn_timer <= 2 * INITIAL_SPAWN_TIME
        &&& 1 <= self.spawn_num <= MAX_WAVE
    }

    /// No soul has more karma than the tuning in force allows.
    pub open spec fn capped(self) -> bool {
        forall|k: int|
            0 <= k < self.souls.len() ==> (#[trigger] self.souls[k]).karma <= max_karma(
                self.params.eternals,
            )
    }

    /// Whether a wave arrives in a frame of `dt` ticks.
    pub open spec fn wave_arrives(self, dt: u32) -> bool {
        self.spawn_timer - dt <= 0
    }

    /// How many souls are born in a frame of `dt` ticks.
    pub open spec fn arrivals(self, dt: u32) -> nat {
        if self.wave_arrives(dt) {
            wave_souls(next_wave_size(self.spawn_num), self.params.block_spawn_souls) as nat
        } else {
            0
        }
    }

    /// The simulation after `n` souls of the kind asked for have been born from
    /// the first `n` draws.
    pub open spec fn after_births(self, n: nat, kind: Option<SoulKind>, draws: Seq<SpawnDraw>)
        -> World {
        World {
            souls: spawned(self.souls, self.ids, kind, draws, n, self.params.energy_time),
            ids: (self.ids + n) as u64,
            ..self
        }
    }

    /// The simulation after the wave scheduler has had its turn. While the
    /// wait lasts, the timer runs down by `dt`. When it runs out, the wait
    /// shrinks by a step, down to the shortest, the timer starts again from
    /// the new wait and the tuning's delay, the wave grows by one, up to the
    /// largest, and its souls are born neutral.
    pub open spec fn after_wave(self, dt: u32, draws: Seq<SpawnDraw>) -> World {
        if self.wave_arrives(dt) {
            let spawn_time = next_spawn_time(self.spawn_time);
            let spawn_num = next_wave_size(self.spawn_num);
            (World {
                spawn_time,
                spawn_timer: (spawn_time + self.params.slow_spawn_time) as i64,
                spawn_num,
                ..self
            }).after_births(self.arrivals(dt), Some(SoulKind::Neutral), draws)
        } else {
            World { spawn_timer: (self.spawn_timer - dt) as i64, ..self }
        }
    }

    /// The simulation after every soul has moved.
    pub open spec fn after_moves(
        self,
        dt: u32,
        pointer: Point,
        is_guiding: bool,
        jitter: Seq<(i32, i32)>,
    ) -> World {
        World {
            souls: Seq::new(
                self.souls.len(),
                |k: int| moved_soul(self.souls[k], dt, pointer, is_guiding, self.params, jitter[k]),
            ),
            ..self
        }
    }

    /// The simulation after the souls have met: the index is built from where
    /// they stand, crowded souls are pushed apart, and karma spreads among
    /// the souls as they stand then, found through the same index.
    pub open spec fn after_contact(self, dt: u32) -> World {
        let boxes = boxes_of(self.souls);
        let apart = overlap_pass(self.souls, boxes, GRID_SIZE as int);
        World {
            souls: Seq::new(
                self.souls.len(),
                |k: int|
                    karma_outcome(
                        apart,
                        boxes,
                        k,
                        dt as int,
                        KARMA_CHANGE_RADIUS as int,
                        self.params.karma_change_rate as int,
                        self.params.karma_expire_rate as int,
                        self.params.eternals,
                    ),
            ),
            ..self
        }
    }

    /// The simulation after the energy economy has had its turn: each yield
    /// adds the tuning's amount to the total and its place to the list.
    pub open spec fn after_energy(self, dt: u32) -> World {
        let places = collected(self.souls, dt, self.souls.len() as int);
        World {
            souls: Seq::new(
                self.souls.len(),
                |k: int| ticked(self.souls[k], dt, self.params.energy_time),
            ),
            energy: (self.energy + places.len() * self.params.energy_amount) as u64,
            energy_positions: self.energy_positions + places,
            ..self
        }
    }

    /// The simulation after the souls have been counted.
    pub open spec fn after_census(self) -> World {
        World {
            good_progress: share(
                headcount(self.souls, true, self.souls.len() as int),
                self.souls.len(),
            ) as u32,
            bad_progress: share(
                headcount(self.souls, false, self.souls.len() as int),
                self.souls.len(),
            ) as u32,
            ..self
        }
    }

    /// The simulation after one frame: the wave scheduler, the movement, the
    /// meeting of the souls, the energy economy and the census, in this
    /// order.
    pub open spec fn after_frame(self, input: FrameInput) -> World {
        self.after_wave(input.dt, input.spawn_draws@).after_moves(
            input.dt,
            input.pointer,
            input.is_guiding,
            input.jitter@,
        ).after_contact(input.dt).after_energy(input.dt).after_census()
    }

    /// Whether `input` holds what a frame needs: a pointer in the world, a
    /// valid draw for each soul that a wave would bring and a jitter for each
    /// soul there will be, while the souls, their ids and the energy stay
    /// within what the machine can count.
    pub open spec fn accepts(self, input: FrameInput) -> bool {
        &&& input.pointer.in_world()
        &&& self.arrivals(input.dt) <= input.spawn_draws.len()
        &&& forall|k: int|
            0 <= k < self.arrivals(input.dt) ==> (#[trigger] input.spawn_draws[k]).valid()
        &&& self.souls.len() + self.arrivals(input.dt) <= input.jitter.len()
        &&& self.souls.len() + self.arrivals(input.dt) <= max_souls()
        &&& self.ids + self.arrivals(input.dt) <= u64::MAX
        &&& self.energy + (self.souls.len() + self.arrivals(input.dt)) * self.params.energy_amount
            <= u64::MAX
    }
}

/// The tuning that well-formed blessings amount to lies between the two
/// ends of the tuning.
pub proof fn lemma_derived_bounds(blessings: Blessings)
    requires
        blessings.wf(),
    ensures
        ({
            let p = blessings.derived();
            &&& 50_000 <= p.sacred_radius <= 130_000
            &&& 100_000 <= p.karma_change_rate <= 300_000
            &&& 5_000 <= p.karma_expire_rate <= 15_000
            &&& 1_000_000 <= p.energy_time <= 2_000_000
            &&& 1 <= p.energy_amount <= 20
            &&& 85_000 <= p.following_speed <= 150_000
            &&& p.slow_spawn_time <= 20_000_000
            &&& p.block_spawn_souls <= 18
        }),
{
    let from = params_start();
    let to = params_end();
    assert(blessings.level_of(Blessing::CircleOfGrace) <= Blessing::CircleOfGrace.max_level());
    assert(blessings.level_of(Blessing::KarmaAmplification)
        <= Blessing::KarmaAmplification.max_level());
    assert(blessings.level_of(Blessing::KarmaPersistence)
        <= Blessing::KarmaPersistence.max_level());
    assert(blessings.level_of(Blessing::SpiritualFocus) <= Blessing::SpiritualFocus.max_level());
    assert(blessings.level_of(Blessing::AscendantEnergy) <= Blessing::AscendantEnergy.max_level());
    assert(blessings.level_of(Blessing::Devotion) <= Blessing::Devotion.max_level());
    assert(blessings.level_of(Blessing::GracefulPause) <= Blessing::GracefulPause.max_level());
    assert(blessings.level_of(Blessing::SpiritualGate) <= Blessing::SpiritualGate.max_level());
    lemma_blend_between(
        from.sacred_radius as int,
        to.sacred_radius as int,
        blessings.level_of(Blessing::CircleOfGrace) as int,
        10,
    );
    lemma_blend_between(
        from.karma_change_rate as int,
        to.karma_change_rate as int,
        blessings.level_of(Blessing::KarmaAmplification) as int,
        10,
    );
    lemma_blend_between(
        from.karma_expire_rate as int,
        to.karma_expire_rate as int,
        blessings.level_of(Blessing::KarmaPersistence) as int,
        10,
    );
    lemma_blend_between(
        from.energy_time as int,
        to.energy_time as int,
        blessings.level_of(Blessing::SpiritualFocus) as int,
        10,
    );
    lemma_blend_between(
        from.energy_amount as int,
        to.energy_amount as int,
        blessings.level_of(Blessing::AscendantEnergy) as int,
        10,
    );
    lemma_blend_between(
        from.following_speed as int,
        to.following_speed as int,
        blessings.level_of(Blessing::Devotion) as int,
        10,
    );
    lemma_blend_between(
        from.slow_spawn_time as int,
        to.slow_spawn_time as int,
        blessings.level_of(Blessing::GracefulPause) as int,
        10,
    );
    lemma_blend_between(
        from.block_spawn_souls as int,
        to.block_spawn_souls as int,
        blessings.level_of(Blessing::SpiritualGate) as int,
        10,
    );
}

/// The simulation.
pub struct State {
    souls: Vec<Soul>,
    ids: u64,
    blessings: Blessings,
    params: Params,
    spawn_time: u32,
    spawn_timer: i64,
    spawn_num: usize,
    energy: u64,
    good_progress: u32,
    bad_progress: u32,
    energy_positions: Vec<Point>,
}

impl View for State {
    type V = World;

    closed spec fn view(&self) -> World {
        World {
            souls: self.souls@,
            ids: self.ids,
            blessings: self.blessings,
            params: self.params,
            spawn_time: self.spawn_time,
            spawn_timer: self.spawn_timer,
            spawn_num: self.spawn_num,
            energy: self.energy,
            good_progress: self.good_progress,
            bad_progress: self.bad_progress,
            energy_positions: self.energy_positions@,
        }
    }
}

impl State {
    /// A simulation without souls, waiting for its first wave.
    pub fn new() -> (state: State)
        ensures
            state@.wf(),
            state@.capped(),
            state@.souls.len() == 0,
            state@.ids == 0,
            state@.blessings.level_of(Blessing::CircleOfGrace) == 1,
            forall|b: Blessing|
                b != Blessing::CircleOfGrace ==> state@.blessings.level_of(b) == 0,
            state@.spawn_time == INITIAL_SPAWN_TIME,
            state@.spawn_timer == INITIAL_SPAWN_TIME,
            state@.spawn_num == 1,
            state@.energy == 0,
            state@.good_progress == 0,
            state@.bad_progress == 0,
            state@.energy_positions.len() == 0,
    {
        let blessings = Blessings::new();
        let params = blessings.params();
        State {
            souls: Vec::new(),
            ids: 0,
            blessings,
            params,
            spawn_time: INITIAL_SPAWN_TIME,
            spawn_timer: INITIAL_SPAWN_TIME as i64,
            spawn_num: 1,
            energy: 0,
            good_progress: 0,
            bad_progress: 0,
            energy_positions: Vec::new(),
        }
    }

    /// Gives birth to `n` souls of the kind asked for, or of any kind short
    /// of eternal when none is asked for, from the first `n` draws.
    pub fn spawn_souls(&mut self, n: usize, kind: Option<SoulKind>, draws: &Vec<SpawnDraw>)
        requires
            old(self)@.wf(),
            n <= draws.len(),
            forall|k: int| 0 <= k < n ==> (#[trigger] draws[k]).valid(),
            old(self)@.souls.len() + n <= max_souls(),
            old(self)@.ids + n <= u64::MAX,
        ensures
            final(self)@ == old(self)@.after_births(n as nat, kind, draws@),
            final(self)@.wf(),
            (old(self)@.capped() && (kind == Some(SoulKind::Eternal)
                ==> old(self)@.params.eternals)) ==> final(self)@.capped(),
            forall|k: int|
                old(self)@.souls.len() <= k < final(self)@.souls.len() ==> on_map(
                    (#[trigger] final(self)@.souls[k]).pos,
                ),
            forall|k: int|
                old(self)@.souls.len() <= k < final(self)@.souls.len() ==> lowest_draw(kind) <= (
                #[trigger] final(self)@.souls[k]).karma < karma_range(kind).1,
            kind == Some(SoulKind::Neutral) ==> forall|k: int|
                old(self)@.souls.len() <= k < final(self)@.souls.len() ==> karma_range(kind).0 < (
                #[trigger] final(self)@.souls[k]).karma < karma_range(kind).1,
    {
        proof {
            lemma_derived_bounds(self.blessings);
        }
        let ghost before = self@;
        let mut i: usize = 0;
        while i < n
            invariant
                i <= n,
                n <= draws.len(),
                before == old(self)@,
                before.wf(),
                before.souls.len() + n <= max_souls(),
                before.ids + n <= u64::MAX,
                forall|k: int| 0 <= k < n ==> (#[trigger] draws[k]).valid(),
                self@ == before.after_births(i as nat, kind, draws@),
                self@.wf(),
                1_000_000 <= self.params.energy_time <= 2_000_000,
                (before.capped() && (kind == Some(SoulKind::Eternal) ==> before.params.eternals))
                    ==> self@.capped(),
                forall|k: int|
                    before.souls.len() <= k < self@.souls.len() ==> on_map(
                        (#[trigger] self@.souls[k]).pos,
                    ),
                forall|k: int|
                    before.souls.len() <= k < self@.souls.len() ==> lowest_draw(kind) <= (
                    #[trigger] self@.souls[k]).karma < karma_range(kind).1,
            decreases n - i,
        {
            let ghost held = self@;
            let soul = spawn_soul(self.ids, kind, draws[i], self.params.energy_time);
            proof {
                lemma_drawn_karma_in_range(kind, draws[i as int].karma_roll);
            }
            self.souls.push(soul);
            self.ids += 1;
            proof {
                assert(self@.souls =~= spawned(
                    before.souls,
                    before.ids,
                    kind,
                    draws@,
                    (i + 1) as nat,
                    before.params.energy_time,
                ));
                assert forall|k: int| 0 <= k < self@.souls.len() implies sound(
                    #[trigger] self@.souls[k],
                ) by {
                    if k < held.souls.len() {
                        assert(self@.souls[k] == held.souls[k]);
                    }
                }
            }
            i += 1;
        }
    }

    /// Gives the wave scheduler its turn.
    fn run_scheduler(&mut self, dt: u32, draws: &Vec<SpawnDraw>)
        requires
            old(self)@.wf(),
            old(self)@.arrivals(dt) <= draws.len(),
            forall|k: int| 0 <= k < old(self)@.arrivals(dt) ==> (#[trigger] draws[k]).valid(),
            old(self)@.souls.len() + old(self)@.arrivals(dt) <= max_souls(),
            old(self)@.ids + old(self)@.arrivals(dt) <= u64::MAX,
        ensures
            final(self)@ == old(self)@.after_wave(dt, draws@),
            final(self)@.wf(),
            final(self)@.souls.len() == old(self)@.souls.len() + old(self)@.arrivals(dt),
            old(self)@.capped() ==> final(self)@.capped(),
    {
        proof {
            lemma_derived_bounds(self.blessings);
        }
        let left: i64 = self.spawn_timer - dt as i64;
        if left <= 0 {
            self.spawn_time = if self.spawn_time - SPAWN_TIME_STEP >= MIN_SPAWN_TIME {
                self.spawn_time - SPAWN_TIME_STEP
            } else {
                MIN_SPAWN_TIME
            };
            self.spawn_timer = self.spawn_time as i64 + self.params.slow_spawn_time as i64;
            self.spawn_num = if self.spawn_num + 1 <= MAX_WAVE {
                self.spawn_num + 1
            } else {
                MAX_WAVE
            };
            let souls_to_spawn = if self.spawn_num > self.params.block_spawn_souls {
                self.spawn_num - self.params.block_spawn_souls
            } else {
                1
            };
            self.spawn_souls(souls_to_spawn, Some(SoulKind::Neutral), draws);
        } else {
            self.spawn_timer = left;
        }
    }

    /// Moves the souls.
    fn run_movement(&mut self, input: &FrameInput)
        requires
            old(self)@.wf(),
            input.pointer.in_world(),
            old(self)@.souls.len() <= input.jitter.len(),
        ensures
            final(self)@ == old(self)@.after_moves(
                input.dt,
                input.pointer,
                input.is_guiding,
                input.jitter@,
            ),
            final(self)@.wf(),
            forall|k: int|
                0 <= k < final(self)@.souls.len() ==> on_map((#[trigger] final(self)@.souls[k]).pos),
            old(self)@.capped() ==> final(self)@.capped(),
    {
        let params = self.params;
        assert forall|k: int| 0 <= k < self.souls.len() implies (
        #[trigger] self.souls[k]).pos.in_world() by {
            assert(sound(self@.souls[k]));
        }
        move_souls(
            &mut self.souls,
            input.dt,
            input.pointer,
            input.is_guiding,
            &params,
            &input.jitter,
        );
        proof {
            let before = old(self)@;
            assert(self@.souls =~= before.after_moves(
                input.dt,
                input.pointer,
                input.is_guiding,
                input.jitter@,
            ).souls);
            assert forall|k: int| 0 <= k < self@.souls.len() implies {
                &&& sound(#[trigger] self@.souls[k])
                &&& self@.souls[k].id == before.souls[k].id
                &&& self@.souls[k].karma == before.souls[k].karma
            } by {
                assert(sound(before.souls[k]));
                assert(on_map(self.souls[k].pos));
            }
        }
    }

    /// Lets the souls meet.
    fn run_contact(&mut self, dt: u32)
        requires
            old(self)@.wf(),
            forall|k: int|
                0 <= k < old(self)@.souls.len() ==> on_map((#[trigger] old(self)@.souls[k]).pos),
        ensures
            final(self)@ == old(self)@.after_contact(dt),
            final(self)@.wf(),
            old(self)@.capped() ==> final(self)@.capped(),
    {
        let ghost before = self@;
        let params = self.params;
        assert forall|k: int| 0 <= k < self.souls.len() implies (
        #[trigger] self.souls[k]).pos.in_world() by {
            assert(on_map(before.souls[k].pos));
        }
        assert(pass_has_room(self.souls@, GRID_SIZE as int)) by {
            assert(self.souls.len() * GRID_SIZE <= WORLD_LIMIT - MAP_SIZE) by (nonlinear_arith)
                requires
                    0 <= self.souls.len() <= (WORLD_LIMIT - MAP_SIZE) / (GRID_SIZE as int),
                    GRID_SIZE == 20_000,
            ;
            assert forall|k: int| 0 <= k < self.souls.len() implies (
            #[trigger] self.souls@[k]).pos.within(WORLD_LIMIT - self.souls.len() * GRID_SIZE) by {
                assert(on_map(before.souls[k].pos));
            }
        }
        let aabb_index = index_souls(&self.souls);
        avoid_overlap(&mut self.souls, GRID_SIZE, &aabb_index);
        let ghost apart = self.souls@;
        assert forall|k: int| 0 <= k < self.souls.len() implies (
        #[trigger] self.souls[k]).pos.in_world() by {
            assert(apart[k].pos.within(crate::geometry::WORLD_LIMIT as int));
        }
        update_karma(
            &mut self.souls,
            dt,
            KARMA_CHANGE_RADIUS,
            params.karma_change_rate,
            params.karma_expire_rate,
            params.eternals,
            &aabb_index,
        );
        proof {
            assert(self@.souls =~= before.after_contact(dt).souls);
            assert forall|k: int| 0 <= k < self@.souls.len() implies {
                &&& sound(#[trigger] self@.souls[k])
                &&& self@.souls[k].id == before.souls[k].id
                &&& (before.souls[k].karma <= max_karma(params.eternals) ==> self@.souls[k].karma
                    <= max_karma(params.eternals))
            } by {
                let was = apart[k];
                assert(was == (Soul { pos: was.pos, ..before.souls[k] }));
                assert(sound(before.souls[k]));
                assert(was.pos.within(crate::geometry::WORLD_LIMIT as int));
                lemma_next_karma_in_range(
                    was.karma as int,
                    was.is_following,
                    crate::karma::good_neighbors(
                        apart,
                        aabb_index@,
                        k,
                        KARMA_CHANGE_RADIUS as int,
                    ).len(),
                    crate::karma::bad_neighbors(
                        apart,
                        aabb_index@,
                        k,
                        KARMA_CHANGE_RADIUS as int,
                    ).len(),
                    dt as int,
                    params.karma_change_rate as int,
                    params.karma_expire_rate as int,
                    params.eternals,
                );
            }
        }
    }

    /// Gives the energy economy its turn.
    fn run_economy(&mut self, dt: u32)
        requires
            old(self)@.wf(),
            old(self)@.energy + old(self)@.souls.len() * old(self)@.params.energy_amount
                <= u64::MAX,
        ensures
            final(self)@ == old(self)@.after_energy(dt),
            final(self)@.wf(),
            old(self)@.capped() ==> final(self)@.capped(),
    {
        let ghost before = self@;
        let params = self.params;
        proof {
            lemma_derived_bounds(self.blessings);
        }
        assert forall|k: int| 0 <= k < self.souls.len() implies (
        #[trigger] self.souls[k]).energy_timer >= -0x7fff_ffff by {
            assert(sound(before.souls[k]));
        }
        let mut events = collect_energy(&mut self.souls, dt, params.energy_time);
        assert(0 <= events.len() * params.energy_amount <= self.souls.len()
            * params.energy_amount) by (nonlinear_arith)
            requires
                0 <= events.len() <= self.souls.len(),
                0 <= params.energy_amount,
        ;
        self.energy = self.energy + (events.len() as u64) * params.energy_amount;
        self.energy_positions.append(&mut events);
        proof {
            assert(self@.souls =~= before.after_energy(dt).souls);
            assert forall|k: int| 0 <= k < self@.souls.len() implies {
                &&& sound(#[trigger] self@.souls[k])
                &&& self@.souls[k].id == before.souls[k].id
                &&& self@.souls[k].karma == before.souls[k].karma
            } by {
                assert(self@.souls[k] == ticked(before.souls[k], dt, params.energy_time));
                assert(sound(before.souls[k]));
            }
        }
    }

    /// Counts the souls.
    fn run_census(&mut self)
        ensures
            final(self)@ == old(self)@.after_census(),
    {
        let counts = count_souls(&self.souls);
        proof {
            lemma_headcount_bound(self.souls@, true, self.souls.len() as int);
            lemma_headcount_bound(self.souls@, false, self.souls.len() as int);
        }
        self.good_progress = share_of(counts.0, self.souls.len());
        self.bad_progress = share_of(counts.1, self.souls.len());
    }

    /// Advances the simulation by one frame.
    pub fn update(&mut self, input: &FrameInput)
        requires
            old(self)@.wf(),
            old(self)@.accepts(*input),
        ensures
            final(self)@ == old(self)@.after_frame(*input),
            final(self)@.wf(),
            old(self)@.capped() ==> final(self)@.capped(),
    {
        self.run_scheduler(input.dt, &input.spawn_draws);
        self.run_movement(input);
        self.run_contact(input.dt);
        self.run_economy(input.dt);
        self.run_census();
    }

    /// Buys the next level of `blessing` if the blessing can be unlocked and
    /// the energy gathered covers the price of that level. The purchase takes
    /// the price off the energy, raises the level and puts the new tuning in
    /// force. When it cannot be made, nothing changes.
    pub fn unlock_blessing(&mut self, b: Blessing) -> (bought: bool)
        requires
            old(self)@.wf(),
        ensures
            final(self)@.wf(),
            bought == (old(self)@.blessings.unlockable(b) && old(self)@.blessings.level_of(b)
                < b.max_level() && old(self)@.energy >= price_of(
                b,
                (old(self)@.blessings.level_of(b) + 1) as u8,
            )),
            bought ==> final(self)@ == (World {
                blessings: final(self)@.blessings,
                params: final(self)@.blessings.derived(),
                energy: (old(self)@.energy - price_of(
                    b,
                    (old(self)@.blessings.level_of(b) + 1) as u8,
                )) as u64,
                ..old(self)@
            }),
            bought ==> final(self)@.blessings.level_of(b) == old(self)@.blessings.level_of(b) + 1,
            forall|other: Blessing|
                other != b ==> final(self)@.blessings.level_of(other) == old(
                    self,
                )@.blessings.level_of(other),
            !bought ==> final(self)@ == old(self)@,
            final(self)@.energy <= old(self)@.energy,
            old(self)@.capped() ==> final(self)@.capped(),
    {
        let lvl = self.blessings.level(&b);
        assert(self.blessings.level_of(b) <= b.max_level());
        let price = b.price(lvl + 1);
        let can_unlock = self.blessings.can_unlock(b) && lvl < b.levels() && self.energy >= price;
        if can_unlock {
            let ghost was_eternal = self.params.eternals;
            let v = self.blessings.unlock(b);
            self.energy -= price;
            self.params = self.blessings.params();
            proof {
                if was_eternal {
                    assert(old(self)@.blessings.level_of(Blessing::EternalGrace) > 0);
                    assert(self.blessings.level_of(Blessing::EternalGrace) > 0);
                }
            }
            return v;
        }
        false
    }

    /// The souls alive, in the order of their birth.
    pub fn souls(&self) -> (souls: &Vec<Soul>)
        ensures
            souls@ == self@.souls,
    {
        &self.souls
    }

    /// The levels reached in the blessings.
    pub fn blessings(&self) -> (blessings: &Blessings)
        ensures
            *blessings == self@.blessings,
    {
        &self.blessings
    }

    /// The tuning in force.
    pub fn params(&self) -> (params: Params)
        ensures
            params == self@.params,
    {
        self.params
    }

    /// The energy gathered and not yet spent.
    pub fn energy(&self) -> (energy: u64)
        ensures
            energy == self@.energy,
    {
        self.energy
    }

    /// Sets the energy total, as a gift or a forfeit from outside the
    /// simulation.
    pub fn set_energy(&mut self, energy: u64)
        ensures
            final(self)@ == (World { energy, ..old(self)@ }),
    {
        self.energy = energy;
    }

    /// The wait between waves, in ticks.
    pub fn spawn_time(&self) -> (ticks: u32)
        ensures
            ticks == self@.spawn_time,
    {
        self.spawn_time
    }

    /// The ticks left until the next wave.
    pub fn spawn_timer(&self) -> (ticks: i64)
        ensures
            ticks == self@.spawn_timer,
    {
        self.spawn_timer
    }

    /// The size of the last wave.
    pub fn spawn_num(&self) -> (size: usize)
        ensures
            size == self@.spawn_num,
    {
        self.spawn_num
    }

    /// How many souls the next wave brings under the tuning in force.
    pub fn next_wave_souls(&self) -> (count: usize)
        requires
            self@.wf(),
        ensures
            count == wave_souls(next_wave_size(self@.spawn_num), self@.params.block_spawn_souls),
            1 <= count <= MAX_WAVE,
    {
        let size = if self.spawn_num + 1 <= MAX_WAVE {
            self.spawn_num + 1
        } else {
            MAX_WAVE
        };
        if size > self.params.block_spawn_souls {
            size - self.params.block_spawn_souls
        } else {
            1
        }
    }

    /// How many souls a frame of `dt` ticks gives birth to: none while the
    /// wait for the next wave lasts.
    pub fn souls_due(&self, dt: u32) -> (count: usize)
        requires
            self@.wf(),
        ensures
            count == self@.arrivals(dt),
            count <= MAX_WAVE,
    {
        if self.spawn_timer - dt as i64 <= 0 {
            self.next_wave_souls()
        } else {
            0
        }
    }

    /// The id that the next soul gets.
    pub fn ids(&self) -> (ids: u64)
        ensures
            ids == self@.ids,
    {
        self.ids
    }

    /// The share of good souls among all, in millionths.
    pub fn good_progress(&self) -> (part: u32)
        ensures
            part == self@.good_progress,
    {
        self.good_progress
    }

    /// The share of bad souls among all, in millionths.
    pub fn bad_progress(&self) -> (part: u32)
        ensures
            part == self@.bad_progress,
    {
        self.bad_progress
    }

    /// Where energy was collected since the list was last taken.
    pub fn energy_positions(&self) -> (places: &Vec<Point>)
        ensures
            places@ == self@.energy_positions,
    {
        &self.energy_positions
    }

    /// Hands over the list of places where energy was collected, and starts
    /// a new one.
    pub fn take_energy_positions(&mut self) -> (places: Vec<Point>)
        ensures
            places@ == old(self)@.energy_positions,
            final(self)@ == (World { energy_positions: Seq::empty(), ..old(self)@ }),
    {
        let mut places: Vec<Point> = Vec::new();
        places.append(&mut self.energy_positions);
        assert(self.energy_positions@ =~= Seq::<Point>::empty());
        assert(places@ =~= old(self)@.energy_positions);
        places
    }

    /// Whether `input` holds what the next frame needs.
    pub fn accepts(&self, input: &FrameInput) -> (ok: bool)
        requires
            self@.wf(),
        ensures
            ok == self@.accepts(*input),
    {
        let due = self.souls_due(input.dt);
        let souls: u128 = self.souls.len() as u128 + due as u128;
        assert(souls * self.params.energy_amount <= 0x1_0000_0000_0000_0000
            * 0xffff_ffff_ffff_ffff) by (nonlinear_arith)
            requires
                0 <= souls <= 0x1_0000_0000_0000_0000,
                0 <= self.params.energy_amount <= 0xffff_ffff_ffff_ffff,
        ;
        if !(input.pointer.is_in_world() && due <= input.spawn_draws.len()
            && self.souls.len() + due <= input.jitter.len() && self.souls.len() + due
            <= souls_limit() && self.ids <= u64::MAX - due as u64 && self.energy as u128 + souls
            * (self.params.energy_amount as u128) <= u64::MAX as u128) {
            return false;
        }
        let mut k: usize = 0;
        while k < due
            invariant
                k <= due,
                due == self@.arrivals(input.dt),
                due <= input.spawn_draws.len(),
                input.pointer.in_world(),
                self@.souls.len() + due <= input.jitter.len(),
                self@.souls.len() + due <= max_souls(),
                self@.ids + due <= u64::MAX,
                self@.energy + (self@.souls.len() + due) * self@.params.energy_amount <= u64::MAX,
                forall|j: int| 0 <= j < k ==> (#[trigger] input.spawn_draws[j]).valid(),
            decreases due - k,
        {
            if !input.spawn_draws[k].is_valid() {
                return false;
            }
            k += 1;
        }
        true
    }
}

} // verus!
