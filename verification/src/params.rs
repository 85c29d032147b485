//! The blessings a player can unlock and the levels reached so far.

use vstd::prelude::*;
use vstd::arithmetic::div_mod::{lemma_div_is_ordered, lemma_div_multiples_vanish, lemma_div_pos_is_pos};
use rustc_hash::{FxBuildHasher, FxHashMap};

verus! {

/// The values that tune the simulation, as the blessings unlocked so far
/// make them. Lengths are in thousandths of a pixel, karma in millionths,
/// times in ticks, and rates are per second.
#[derive(Clone, Copy, Debug, PartialEq, Eq, Structural)]
pub struct Params {
    /// How far from the pointer souls hear the player's guidance.
    pub sacred_radius: u32,
    /// How fast neighbours convert a soul.
    pub karma_change_rate: u32,
    /// How fast karma drifts when left alone.
    pub karma_expire_rate: u32,
    /// The time a good soul takes to yield energy.
    pub energy_time: u32,
    /// The energy of one yield.
    pub energy_amount: u64,
    /// How fast guided souls move towards the pointer.
    pub following_speed: u32,
    /// Whether souls may rise beyond luminal.
    pub eternals: bool,
    /// The time added to the wait for each wave.
    pub slow_spawn_time: u32,
    /// How many souls each wave is short of its size.
    pub block_spawn_souls: usize,
}

/// The tuning with no blessing unlocked.
pub open spec fn params_start() -> Params {
    Params {
        sacred_radius: 50_000,
        karma_change_rate: 100_000,
        karma_expire_rate: 15_000,
        energy_time: 2_000_000,
        energy_amount: 1,
        following_speed: 85_000,
        eternals: false,
        slow_spawn_time: 0,
        block_spawn_souls: 0,
    }
}

/// The tuning with every blessing at its highest level.
pub open spec fn params_end() -> Params {
    Params {
        sacred_radius: 130_000,
        karma_change_rate: 300_000,
        karma_expire_rate: 5_000,
        energy_time: 1_000_000,
        energy_amount: 20,
        following_speed: 150_000,
        eternals: true,
        slow_spawn_time: 20_000_000,
        block_spawn_souls: 18,
    }
}

impl Params {
    /// The tuning with no blessing unlocked.
    pub fn start() -> (params: Params)
        ensures
            params == params_start(),
    {
        Params {
            sacred_radius: 50_000,
            karma_change_rate: 100_000,
            karma_expire_rate: 15_000,
            energy_time: 2_000_000,
            energy_amount: 1,
            following_speed: 85_000,
            eternals: false,
            slow_spawn_time: 0,
            block_spawn_souls: 0,
        }
    }

    /// The tuning with every blessing at its highest level.
    pub fn end() -> (params: Params)
        ensures
            params == params_end(),
    {
        Params {
            sacred_radius: 130_000,
            karma_change_rate: 300_000,
            karma_expire_rate: 5_000,
            energy_time: 1_000_000,
            energy_amount: 20,
            following_speed: 150_000,
            eternals: true,
            slow_spawn_time: 20_000_000,
            block_spawn_souls: 18,
        }
    }
}

/// The value that lies `level` parts out of `max` of the way from `start` to
/// `end`, rounded towards `start`.
pub open spec fn blend(start: int, end: int, level: int, max: int) -> int {
    if end >= start {
        start + (end - start) * level / max
    } else {
        start - (start - end) * level / max
    }
}

/// A blend lies between its two ends, and on them at level 0 and at the
/// highest level.
pub proof fn lemma_blend_between(start: int, end: int, level: int, max: int)
    requires
        0 <= level <= max,
        0 < max,
    ensures
        start <= end ==> start <= blend(start, end, level, max) <= end,
        end <= start ==> end <= blend(start, end, level, max) <= start,
        level == 0 ==> blend(start, end, level, max) == start,
        level == max ==> blend(start, end, level, max) == end,
{
    let span = if end >= start {
        end - start
    } else {
        start - end
    };
    assert(0 <= span * level <= span * max) by (nonlinear_arith)
        requires
            0 <= span,
            0 <= level <= max,
    ;
    lemma_div_is_ordered(span * level, span * max, max);
    assert(span * max == max * span) by (nonlinear_arith);
    lemma_div_multiples_vanish(span, max);
    lemma_div_pos_is_pos(span * level, max);
    if level == 0 {
        assert(span * level == 0) by (nonlinear_arith)
            requires
                level == 0,
        ;
    }
    if level == max {
        assert(span * level == max * span) by (nonlinear_arith)
            requires
                level == max,
        ;
    }
}

/// Computes `blend`.
pub fn blend_levels(start: u64, end: u64, level: u8, max: u8) -> (value: u64)
    requires
        level <= max,
        0 < max,
    ensures
        value == blend(start as int, end as int, level as int, max as int),
{
    proof {
        lemma_blend_between(start as int, end as int, level as int, max as int);
    }
    if end >= start {
        let span: u128 = (end - start) as u128;
        assert(span * level <= 0xffff_ffff_ffff_ffff * 0xff) by (nonlinear_arith)
            requires
                0 <= span <= 0xffff_ffff_ffff_ffff,
                0 <= level <= 0xff,
        ;
        let part: u128 = span * (level as u128) / (max as u128);
        start + part as u64
    } else {
        let span: u128 = (start - end) as u128;
        assert(span * level <= 0xffff_ffff_ffff_ffff * 0xff) by (nonlinear_arith)
            requires
                0 <= span <= 0xffff_ffff_ffff_ffff,
                0 <= level <= 0xff,
        ;
        let part: u128 = span * (level as u128) / (max as u128);
        start - part as u64
    }
}

/// `rustc_hash::FxBuildHasher`, the hasher of the map that holds the levels.
/// Nothing is known of a value of it.
#[verifier::external_type_specification]
#[verifier::external_body]
pub struct ExFxBuildHasher(FxBuildHasher);

/// One entry of the progression tree.
#[derive(Clone, Copy, Debug, PartialEq, Eq, Hash, Structural)]
pub enum Blessing {
    CircleOfGrace,
    KarmaAmplification,
    KarmaPersistence,
    SpiritualFocus,
    AscendantEnergy,
    Devotion,
    GracefulPause,
    SpiritualGate,
    EternalGrace,
}

impl Blessing {
    /// The position of the blessing in the catalogue, which is also the key
    /// under which its level is stored.
    pub open spec fn ordinal(self) -> u8 {
        match self {
            Blessing::CircleOfGrace => 0,
            Blessing::KarmaAmplification => 1,
            Blessing::KarmaPersistence => 2,
            Blessing::SpiritualFocus => 3,
            Blessing::AscendantEnergy => 4,
            Blessing::Devotion => 5,
            Blessing::GracefulPause => 6,
            Blessing::SpiritualGate => 7,
            Blessing::EternalGrace => 8,
        }
    }

    /// The position of the blessing in the catalogue.
    pub fn index(&self) -> (i: u8)
        ensures
            i == self.ordinal(),
    {
        match self {
            Blessing::CircleOfGrace => 0,
            Blessing::KarmaAmplification => 1,
            Blessing::KarmaPersistence => 2,
            Blessing::SpiritualFocus => 3,
            Blessing::AscendantEnergy => 4,
            Blessing::Devotion => 5,
            Blessing::GracefulPause => 6,
            Blessing::SpiritualGate => 7,
            Blessing::EternalGrace => 8,
        }
    }

    /// The blessing at position `i` of the catalogue, if there is one.
    pub fn from_index(i: u8) -> (found: Option<Blessing>)
        ensures
            found matches Some(b) ==> b.ordinal() == i,
            found is Some <==> i < 9,
    {
        match i {
            0 => Some(Blessing::CircleOfGrace),
            1 => Some(Blessing::KarmaAmplification),
            2 => Some(Blessing::KarmaPersistence),
            3 => Some(Blessing::SpiritualFocus),
            4 => Some(Blessing::AscendantEnergy),
            5 => Some(Blessing::Devotion),
            6 => Some(Blessing::GracefulPause),
            7 => Some(Blessing::SpiritualGate),
            8 => Some(Blessing::EternalGrace),
            _ => None,
        }
    }

    /// The highest level the blessing can reach.
    pub open spec fn max_level(self) -> u8 {
        match self {
            Blessing::EternalGrace => 1,
            _ => 10,
        }
    }

    /// The highest level the blessing can reach.
    pub fn levels(&self) -> (max: u8)
        ensures
            max == self.max_level(),
    {
        match self {
            Blessing::EternalGrace => 1,
            _ => 10,
        }
    }

    /// What must be reached before the blessing can be unlocked: a level in
    /// one other blessing. Only the first blessing asks for nothing.
    pub open spec fn requirement(self) -> Option<(u8, Blessing)> {
        match self {
            Blessing::CircleOfGrace => None,
            Blessing::KarmaAmplification => Some((4u8, Blessing::CircleOfGrace)),
            Blessing::KarmaPersistence => Some((3u8, Blessing::KarmaAmplification)),
            Blessing::SpiritualFocus => Some((3u8, Blessing::KarmaPersistence)),
            Blessing::AscendantEnergy => Some((2u8, Blessing::SpiritualFocus)),
            Blessing::Devotion => Some((2u8, Blessing::AscendantEnergy)),
            Blessing::GracefulPause => Some((1u8, Blessing::Devotion)),
            Blessing::SpiritualGate => Some((1u8, Blessing::GracefulPause)),
            Blessing::EternalGrace => Some((1u8, Blessing::SpiritualGate)),
        }
    }

    /// The level, and the blessing in which it must be reached, before this
    /// blessing can be unlocked.
    pub fn require(&self) -> (needed: Option<(u8, Blessing)>)
        ensures
            needed == self.requirement(),
    {
        Some(
            match self {
                Blessing::CircleOfGrace => return None,
                Blessing::KarmaAmplification => (4, Blessing::CircleOfGrace),
                Blessing::KarmaPersistence => (3, Blessing::KarmaAmplification),
                Blessing::SpiritualFocus => (3, Blessing::KarmaPersistence),
                Blessing::AscendantEnergy => (2, Blessing::SpiritualFocus),
                Blessing::Devotion => (2, Blessing::AscendantEnergy),
                Blessing::GracefulPause => (1, Blessing::Devotion),
                Blessing::SpiritualGate => (1, Blessing::GracefulPause),
                Blessing::EternalGrace => (1, Blessing::SpiritualGate),
            },
        )
    }

    /// The name shown for the blessing.
    pub open spec fn name(self) -> Seq<char> {
        match self {
            Blessing::CircleOfGrace => "Circle of Grace"@,
            Blessing::KarmaAmplification => "Karma Amplification"@,
            Blessing::KarmaPersistence => "Karma Persistence"@,
            Blessing::SpiritualFocus => "Spiritual Focus"@,
            Blessing::AscendantEnergy => "Ascendant Energy"@,
            Blessing::Devotion => "Devotion"@,
            Blessing::GracefulPause => "Graceful Pause"@,
            Blessing::SpiritualGate => "Spiritual Gate"@,
            Blessing::EternalGrace => "Eternal Grace"@,
        }
    }

    /// What the blessing does, in a sentence or two.
    pub open spec fn description(self) -> Seq<char> {
        match self {
            Blessing::CircleOfGrace => "Increases the sacred zone radius. Luminals follow this zone, converting nearby souls."@,
            Blessing::KarmaAmplification => "Increases the effectiveness of prayers, converting souls faster."@,
            Blessing::KarmaPersistence => "Slows corruption, making souls more resistant to it."@,
            Blessing::SpiritualFocus => "Increases the focus of prayers, generating spiritual energy faster."@,
            Blessing::AscendantEnergy => "Increases the amount of energy generated by each soul."@,
            Blessing::Devotion => "Souls follow the sacred circle with increased speed and dedication."@,
            Blessing::GracefulPause => "Increases the time between new soul spawns, preventing flooding."@,
            Blessing::SpiritualGate => "Reduces the number of souls entering the realm per wave."@,
            Blessing::EternalGrace => "Luminals can become incorruptible, converting nearby souls without the need for the sacred circle."@,
        }
    }

    /// The name and the description of the blessing.
    pub fn info(&self) -> (text: (&'static str, &'static str))
        ensures
            text.0@ == self.name(),
            text.1@ == self.description(),
    {
        match self {
            Blessing::CircleOfGrace => {
                let name = "Circle of Grace";
                let desc =
                    "Increases the sacred zone radius. Luminals follow this zone, converting nearby souls.";
                (name, desc)
            },
            Blessing::KarmaAmplification => {
                let name = "Karma Amplification";
                let desc = "Increases the effectiveness of prayers, converting souls faster.";
                (name, desc)
            },
            Blessing::KarmaPersistence => {
                let name = "Karma Persistence";
                let desc = "Slows corruption, making souls more resistant to it.";
                (name, desc)
            },
            Blessing::SpiritualFocus => {
                let name = "Spiritual Focus";
                let desc = "Increases the focus of prayers, generating spiritual energy faster.";
                (name, desc)
            },
            Blessing::AscendantEnergy => {
                let name = "Ascendant Energy";
                let desc = "Increases the amount of energy generated by each soul.";
                (name, desc)
            },
            Blessing::Devotion => {
                let name = "Devotion";
                let desc = "Souls follow the sacred circle with increased speed and dedication.";
                (name, desc)
            },
            Blessing::GracefulPause => {
                let name = "Graceful Pause";
                let desc = "Increases the time between new soul spawns, preventing flooding.";
                (name, desc)
            },
            Blessing::SpiritualGate => {
                let name = "Spiritual Gate";
                let desc = "Reduces the number of souls entering the realm per wave.";
                (name, desc)
            },
            Blessing::EternalGrace => {
                let name = "Eternal Grace";
                let desc =
                    "Luminals can become incorruptible, converting nearby souls without the need for the sacred circle.";
                (name, desc)
            },
        }
    }
}

/// The tree of requirements has one root and no loop: every blessing but the
/// first asks for a level, which can be reached, in the blessing listed just
/// before it.
pub proof fn lemma_requirements_form_a_chain(blessing: Blessing)
    ensures
        blessing.requirement() is None <==> blessing == Blessing::CircleOfGrace,
        blessing.requirement() matches Some((level, other)) ==> {
            &&& 1 <= level <= other.max_level()
            &&& other.ordinal() + 1 == blessing.ordinal()
        },
{
}

/// `HashMap::get` on a map hashed with `FxBuildHasher`: the value stored
/// under `key`, if there is one.
#[verifier::external_body]
fn stored_level(list: &FxHashMap<u8, u8>, key: u8) -> (found: Option<u8>)
    ensures
        found == (if list@.contains_key(key) {
            Some(list@[key])
        } else {
            None
        }),
{
    match list.get(&key) {
        Some(level) => Some(*level),
        None => None,
    }
}

/// `HashMap::insert` on a map hashed with `FxBuildHasher`: afterwards `key`
/// maps to `level` and every other key is as before.
#[verifier::external_body]
fn store_level(list: &mut FxHashMap<u8, u8>, key: u8, level: u8)
    ensures
        final(list)@ == old(list)@.insert(key, level),
{
    list.insert(key, level);
}

/// The level reached in each blessing.
pub struct Blessings {
    list: FxHashMap<u8, u8>,
}

impl Blessings {
    /// The level reached in `blessing`; a blessing never unlocked is at 0.
    pub closed spec fn level_of(self, blessing: Blessing) -> u8 {
        if self.list@.contains_key(blessing.ordinal()) {
            self.list@[blessing.ordinal()]
        } else {
            0
        }
    }

    /// The levels at the start of a run: the first blessing at level 1, the
    /// others locked.
    pub fn new() -> (blessings: Blessings)
        ensures
            blessings.level_of(Blessing::CircleOfGrace) == 1,
            forall|b: Blessing| b != Blessing::CircleOfGrace ==> blessings.level_of(b) == 0,
            blessings.wf(),
    {
        let mut list: FxHashMap<u8, u8> = FxHashMap::default();
        store_level(&mut list, Blessing::CircleOfGrace.index(), 1);
        Blessings { list }
    }

    /// The level reached in `blessing`.
    pub fn level(&self, blessing: &Blessing) -> (level: u8)
        ensures
            level == self.level_of(*blessing),
    {
        match stored_level(&self.list, blessing.index()) {
            Some(level) => level,
            None => 0,
        }
    }

    /// No blessing is beyond its highest level.
    pub open spec fn wf(self) -> bool {
        forall|b: Blessing| #[trigger] self.level_of(b) <= b.max_level()
    }

    /// Whether what `blessing` asks for has been reached.
    pub open spec fn unlockable(self, blessing: Blessing) -> bool {
        match blessing.requirement() {
            Some((level, other)) => self.level_of(other) >= level,
            None => true,
        }
    }

    /// Whether what `blessing` asks for has been reached. The highest level
    /// and the price are not looked at.
    pub fn can_unlock(&self, blessing: Blessing) -> (allowed: bool)
        ensures
            allowed == self.unlockable(blessing),
    {
        match blessing.require() {
            Some((lvl, b)) => self.level(&b) >= lvl,
            None => true,
        }
    }

    /// Raises `blessing` by one level and reports `true`, unless the
    /// blessing is at its highest level already or asks for something not yet
    /// reached: then nothing changes and the answer is `false`. What the
    /// level costs is not looked at here.
    pub fn unlock(&mut self, blessing: Blessing) -> (unlocked: bool)
        ensures
            unlocked == (old(self).unlockable(blessing) && old(self).level_of(blessing)
                < blessing.max_level()),
            unlocked ==> final(self).level_of(blessing) == old(self).level_of(blessing) + 1,
            !unlocked ==> final(self).level_of(blessing) == old(self).level_of(blessing),
            forall|other: Blessing|
                other != blessing ==> final(self).level_of(other) == old(self).level_of(other),
            old(self).wf() ==> final(self).wf(),
    {
        if !self.can_unlock(blessing) {
            return false;
        }
        let lvl = self.level(&blessing);
        if lvl >= blessing.levels() {
            return false;
        }
        store_level(&mut self.list, blessing.index(), lvl + 1);
        proof {
            assert forall|other: Blessing| other != blessing implies self.level_of(other) == old(
                self,
            ).level_of(other) by {
                assert(other.ordinal() != blessing.ordinal());
            }
            if old(self).wf() {
                assert forall|b: Blessing| #[trigger] self.level_of(b) <= b.max_level() by {
                    if b != blessing {
                        assert(self.level_of(b) == old(self).level_of(b));
                    }
                }
            }
        }
        true
    }

    /// The tuning that the levels reached amount to. Each value is blended
    /// between `params_start` and `params_end` by the level of the one
    /// blessing that governs it; eternals are on from the first level of
    /// theirs.
    pub open spec fn derived(self) -> Params {
        Params {
            sacred_radius: blend(
                params_start().sacred_radius as int,
                params_end().sacred_radius as int,
                self.level_of(Blessing::CircleOfGrace) as int,
                Blessing::CircleOfGrace.max_level() as int,
            ) as u32,
            karma_change_rate: blend(
                params_start().karma_change_rate as int,
                params_end().karma_change_rate as int,
                self.level_of(Blessing::KarmaAmplification) as int,
                Blessing::KarmaAmplification.max_level() as int,
            ) as u32,
            karma_expire_rate: blend(
                params_start().karma_expire_rate as int,
                params_end().karma_expire_rate as int,
                self.level_of(Blessing::KarmaPersistence) as int,
                Blessing::KarmaPersistence.max_level() as int,
            ) as u32,
            energy_time: blend(
                params_start().energy_time as int,
                params_end().energy_time as int,
                self.level_of(Blessing::SpiritualFocus) as int,
                Blessing::SpiritualFocus.max_level() as int,
            ) as u32,
            energy_amount: blend(
                params_start().energy_amount as int,
                params_end().energy_amount as int,
                self.level_of(Blessing::AscendantEnergy) as int,
                Blessing::AscendantEnergy.max_level() as int,
            ) as u64,
            following_speed: blend(
                params_start().following_speed as int,
                params_end().following_speed as int,
                self.level_of(Blessing::Devotion) as int,
                Blessing::Devotion.max_level() as int,
            ) as u32,
            eternals: self.level_of(Blessing::EternalGrace) > 0,
            slow_spawn_time: blend(
                params_start().slow_spawn_time as int,
                params_end().slow_spawn_time as int,
                self.level_of(Blessing::GracefulPause) as int,
                Blessing::GracefulPause.max_level() as int,
            ) as u32,
            block_spawn_souls: blend(
                params_start().block_spawn_souls as int,
                params_end().block_spawn_souls as int,
                self.level_of(Blessing::SpiritualGate) as int,
                Blessing::SpiritualGate.max_level() as int,
            ) as usize,
        }
    }

    /// Blends the value that `governor` governs.
    fn blended(&self, start: u64, end: u64, governor: Blessing) -> (value: u64)
        requires
            self.wf(),
        ensures
            value == blend(
                start as int,
                end as int,
                self.level_of(governor) as int,
                governor.max_level() as int,
            ),
            start <= end ==> start <= value <= end,
            end <= start ==> end <= value <= start,
    {
        let lvl = self.level(&governor);
        let max = governor.levels();
        proof {
            assert(self.level_of(governor) <= governor.max_level());
            lemma_blend_between(start as int, end as int, lvl as int, max as int);
        }
        blend_levels(start, end, lvl, max)
    }

    /// Works out the tuning from the levels, anew at every call.
    pub fn params(&self) -> (params: Params)
        requires
            self.wf(),
        ensures
            params == self.derived(),
    {
        let from = Params::start();
        let to = Params::end();
        Params {
            sacred_radius: self.blended(
                from.sacred_radius as u64,
                to.sacred_radius as u64,
                Blessing::CircleOfGrace,
            ) as u32,
            karma_change_rate: self.blended(
                from.karma_change_rate as u64,
                to.karma_change_rate as u64,
                Blessing::KarmaAmplification,
            ) as u32,
            karma_expire_rate: self.blended(
                from.karma_expire_rate as u64,
                to.karma_expire_rate as u64,
                Blessing::KarmaPersistence,
            ) as u32,
            energy_time: self.blended(
                from.energy_time as u64,
                to.energy_time as u64,
                Blessing::SpiritualFocus,
            ) as u32,
            energy_amount: self.blended(
                from.energy_amount,
                to.energy_amount,
                Blessing::AscendantEnergy,
            ),
            following_speed: self.blended(
                from.following_speed as u64,
                to.following_speed as u64,
                Blessing::Devotion,
            ) as u32,
            eternals: self.level(&Blessing::EternalGrace) > 0,
            slow_spawn_time: self.blended(
                from.slow_spawn_time as u64,
                to.slow_spawn_time as u64,
                Blessing::GracefulPause,
            ) as u32,
            block_spawn_souls: self.blended(
                from.block_spawn_souls as u64,
                to.block_spawn_souls as u64,
                Blessing::SpiritualGate,
            ) as usize,
        }
    }
}

} // verus!
