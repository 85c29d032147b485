//! Souls and the kinds their karma puts them in.

use vstd::prelude::*;
use vstd::std_specs::cmp::PartialEqSpecImpl;
use crate::fixed::{scale, scaled, lemma_scaled_bounds, TICKS_PER_SECOND};
use crate::geometry::Point;

verus! {

/// One whole unit of karma.
pub const KARMA_ONE: i64 = 1_000_000;

/// No soul sinks below this karma.
pub const KARMA_FLOOR: i64 = -2_000_000;

/// The most karma a soul gathers while eternals are locked.
pub const KARMA_CAP: i64 = 2_000_000;

/// The most karma a soul gathers once eternals are unlocked.
pub const KARMA_CAP_ETERNAL: i64 = 6_000_000;

/// From this karma on a soul is eternal, whether or not eternals are
/// unlocked.
pub const ETERNAL_KARMA: i64 = 5_000_000;

/// What a soul is, as told by its karma alone.
#[derive(Clone, Copy, Debug, PartialEq, Eq, Structural)]
pub enum SoulKind {
    Neutral,
    Shadow,
    Luminal,
    Eternal,
}

impl Default for SoulKind {
    fn default() -> (kind: SoulKind)
        ensures
            kind == SoulKind::Neutral,
    {
        SoulKind::Neutral
    }
}

/// Which way the neighbours pulled a soul in the last frame.
#[derive(Clone, Copy, Debug, PartialEq, Eq, Structural)]
pub enum KarmaConversion {
    Neutral,
    Good,
    Bad,
}

/// The kind that goes with a karma: shadow up to minus one, neutral strictly
/// between minus one and one, eternal from five on, luminal in between.
pub open spec fn kind_of(karma: int) -> SoulKind {
    if -KARMA_ONE < karma < KARMA_ONE {
        SoulKind::Neutral
    } else if karma <= -KARMA_ONE {
        SoulKind::Shadow
    } else if karma >= ETERNAL_KARMA {
        SoulKind::Eternal
    } else {
        SoulKind::Luminal
    }
}

/// One simulated soul.
#[derive(Clone, Copy, Debug)]
pub struct Soul {
    /// Given at birth and never reused.
    pub id: u64,
    /// In millionths.
    pub karma: i64,
    pub pos: Point,
    /// Whether the soul followed the player's guidance in this frame.
    pub is_following: bool,
    /// Ticks left until the soul next yields energy.
    pub energy_timer: i64,
    pub conversion: KarmaConversion,
}

/// Two souls are the same soul when they bear the same id.
impl PartialEq for Soul {
    fn eq(&self, other: &Self) -> (same: bool) {
        self.id == other.id
    }
}

impl PartialEqSpecImpl for Soul {
    open spec fn obeys_eq_spec() -> bool {
        true
    }

    open spec fn eq_spec(&self, other: &Self) -> bool {
        self.id == other.id
    }
}

/// The idle speed, in thousandths of a pixel per second, that one unit of a
/// jitter roll stands for.
pub const IDLE_SPEED: i64 = 200;

/// Where a soul at `pos` stands after wandering for `dt` ticks as `jitter`
/// says. The two rolls give the speed along the two axes, in units of
/// `IDLE_SPEED`; what a speed amounts to is rounded away from zero.
pub open spec fn wandered(pos: Point, jitter: (i32, i32), dt: u32) -> Point {
    Point {
        x: (pos.x + scaled(jitter.0 * IDLE_SPEED, dt as int, TICKS_PER_SECOND as int)) as i64,
        y: (pos.y + scaled(jitter.1 * IDLE_SPEED, dt as int, TICKS_PER_SECOND as int)) as i64,
    }
}

/// In one frame a soul wanders no further than its idle speed allows in the
/// longest frame there is.
pub proof fn lemma_jitter_bound(speed: int, dt: u32)
    requires
        -0x100_0000_0000 <= speed <= 0x100_0000_0000,
    ensures
        -0x100_0000_0000 * 4295 <= scaled(speed, dt as int, TICKS_PER_SECOND as int)
            <= 0x100_0000_0000 * 4295,
{
    let magnitude = if speed >= 0 {
        speed
    } else {
        -speed
    };
    assert(magnitude * dt <= (0x100_0000_0000 * 4295) * 1_000_000) by (nonlinear_arith)
        requires
            0 <= magnitude <= 0x100_0000_0000,
            0 <= dt <= 0xffff_ffff,
    ;
    lemma_scaled_bounds(speed, dt as int, TICKS_PER_SECOND as int, 0x100_0000_0000int * 4295);
}

impl Soul {
    /// Lets the soul wander for `dt` ticks as `jitter` says.
    pub fn idle_movement(&mut self, jitter: (i32, i32), dt: u32)
        requires
            old(self).pos.within(0x2000_0000_0000_0000),
        ensures
            *final(self) == (Soul { pos: wandered(old(self).pos, jitter, dt), ..*old(self) }),
            final(self).pos.within(0x4000_0000_0000_0000),
    {
        proof {
            lemma_jitter_bound(jitter.0 * IDLE_SPEED, dt);
            lemma_jitter_bound(jitter.1 * IDLE_SPEED, dt);
        }
        let dx: i128 = scale(jitter.0 as i128 * IDLE_SPEED as i128, dt as u64, 1_000_000);
        let dy: i128 = scale(jitter.1 as i128 * IDLE_SPEED as i128, dt as u64, 1_000_000);
        self.pos = Point { x: (self.pos.x as i128 + dx) as i64, y: (self.pos.y as i128 + dy) as i64 };
    }

    /// The kind of the soul, worked out from its karma at every call.
    pub fn kind(&self) -> (kind: SoulKind)
        ensures
            kind == kind_of(self.karma as int),
    {
        if self.is_neutral() {
            SoulKind::Neutral
        } else if self.is_bad() {
            SoulKind::Shadow
        } else if self.karma >= ETERNAL_KARMA {
            SoulKind::Eternal
        } else {
            SoulKind::Luminal
        }
    }

    /// Whether the soul is luminal or eternal.
    pub fn is_good(&self) -> (good: bool)
        ensures
            good == (self.karma >= KARMA_ONE),
            good == (kind_of(self.karma as int) == SoulKind::Luminal || kind_of(self.karma as int)
                == SoulKind::Eternal),
    {
        self.karma >= KARMA_ONE
    }

    /// Whether the soul is a shadow.
    pub fn is_bad(&self) -> (bad: bool)
        ensures
            bad == (self.karma <= -KARMA_ONE),
            bad == (kind_of(self.karma as int) == SoulKind::Shadow),
    {
        self.karma <= -KARMA_ONE
    }

    /// Whether the soul is neutral.
    pub fn is_neutral(&self) -> (neutral: bool)
        ensures
            neutral == (-KARMA_ONE < self.karma < KARMA_ONE),
            neutral == (kind_of(self.karma as int) == SoulKind::Neutral),
    {
        self.karma > -KARMA_ONE && self.karma < KARMA_ONE
    }
}

/// Souls of equal karma are of the same kind, whatever else tells them
/// apart.
pub proof fn lemma_kind_depends_on_karma_alone(a: Soul, b: Soul)
    requires
        a.karma == b.karma,
    ensures
        kind_of(a.karma as int) == kind_of(b.karma as int),
{
}

} // verus!
