use karma_keepers::params::{blend_levels, Blessing, Blessings, Params};

const ALL: [Blessing; 9] = [
    Blessing::CircleOfGrace,
    Blessing::KarmaAmplification,
    Blessing::KarmaPersistence,
    Blessing::SpiritualFocus,
    Blessing::AscendantEnergy,
    Blessing::Devotion,
    Blessing::GracefulPause,
    Blessing::SpiritualGate,
    Blessing::EternalGrace,
];

fn raise(blessings: &mut Blessings, blessing: Blessing, times: u8) {
    for _ in 0..times {
        assert!(blessings.unlock(blessing));
    }
}

fn all_at_max() -> Blessings {
    let mut blessings = Blessings::new();
    raise(&mut blessings, Blessing::CircleOfGrace, 9);
    for b in &ALL[1..8] {
        raise(&mut blessings, *b, 10);
    }
    raise(&mut blessings, Blessing::EternalGrace, 1);
    blessings
}

#[test]
fn new_blessings_start_with_circle_of_grace() {
    let blessings = Blessings::new();
    assert_eq!(blessings.level(&Blessing::CircleOfGrace), 1);
    for b in &ALL[1..] {
        assert_eq!(blessings.level(b), 0);
    }
}

#[test]
fn index_follows_the_catalogue() {
    for (i, b) in ALL.iter().enumerate() {
        assert_eq!(b.index() as usize, i);
    }
}

#[test]
fn levels_are_ten_but_for_eternal_grace() {
    for b in &ALL[..8] {
        assert_eq!(b.levels(), 10);
    }
    assert_eq!(Blessing::EternalGrace.levels(), 1);
}

#[test]
fn require_names_the_blessing_before() {
    assert_eq!(Blessing::CircleOfGrace.require(), None);
    assert_eq!(Blessing::KarmaAmplification.require(), Some((4, Blessing::CircleOfGrace)));
    assert_eq!(Blessing::KarmaPersistence.require(), Some((3, Blessing::KarmaAmplification)));
    assert_eq!(Blessing::SpiritualFocus.require(), Some((3, Blessing::KarmaPersistence)));
    assert_eq!(Blessing::AscendantEnergy.require(), Some((2, Blessing::SpiritualFocus)));
    assert_eq!(Blessing::Devotion.require(), Some((2, Blessing::AscendantEnergy)));
    assert_eq!(Blessing::GracefulPause.require(), Some((1, Blessing::Devotion)));
    assert_eq!(Blessing::SpiritualGate.require(), Some((1, Blessing::GracefulPause)));
    assert_eq!(Blessing::EternalGrace.require(), Some((1, Blessing::SpiritualGate)));
}

#[test]
fn info_gives_name_and_description() {
    assert_eq!(
        Blessing::CircleOfGrace.info(),
        (
            "Circle of Grace",
            "Increases the sacred zone radius. Luminals follow this zone, converting nearby souls."
        )
    );
    assert_eq!(
        Blessing::KarmaAmplification.info(),
        (
            "Karma Amplification",
            "Increases the effectiveness of prayers, converting souls faster."
        )
    );
    assert_eq!(
        Blessing::KarmaPersistence.info(),
        ("Karma Persistence", "Slows corruption, making souls more resistant to it.")
    );
    assert_eq!(
        Blessing::SpiritualFocus.info(),
        (
            "Spiritual Focus",
            "Increases the focus of prayers, generating spiritual energy faster."
        )
    );
    assert_eq!(
        Blessing::AscendantEnergy.info(),
        ("Ascendant Energy", "Increases the amount of energy generated by each soul.")
    );
    assert_eq!(
        Blessing::Devotion.info(),
        ("Devotion", "Souls follow the sacred circle with increased speed and dedication.")
    );
    assert_eq!(
        Blessing::GracefulPause.info(),
        ("Graceful Pause", "Increases the time between new soul spawns, preventing flooding.")
    );
    assert_eq!(
        Blessing::SpiritualGate.info(),
        ("Spiritual Gate", "Reduces the number of souls entering the realm per wave.")
    );
    assert_eq!(
        Blessing::EternalGrace.info(),
        (
            "Eternal Grace",
            "Luminals can become incorruptible, converting nearby souls without the need for the sacred circle."
        )
    );
}

#[test]
fn can_unlock_follows_the_requirement() {
    let mut blessings = Blessings::new();
    assert!(blessings.can_unlock(Blessing::CircleOfGrace));
    assert!(!blessings.can_unlock(Blessing::KarmaAmplification));
    raise(&mut blessings, Blessing::CircleOfGrace, 2);
    assert_eq!(blessings.level(&Blessing::CircleOfGrace), 3);
    assert!(!blessings.can_unlock(Blessing::KarmaAmplification));
    raise(&mut blessings, Blessing::CircleOfGrace, 1);
    assert!(blessings.can_unlock(Blessing::KarmaAmplification));
    assert!(!blessings.can_unlock(Blessing::KarmaPersistence));
}

#[test]
fn unlock_raises_one_level_and_nothing_else() {
    let mut blessings = Blessings::new();
    assert!(blessings.unlock(Blessing::CircleOfGrace));
    assert_eq!(blessings.level(&Blessing::CircleOfGrace), 2);
    for b in &ALL[1..] {
        assert_eq!(blessings.level(b), 0);
    }
}

#[test]
fn unlock_refuses_an_unmet_requirement() {
    let mut blessings = Blessings::new();
    assert!(!blessings.unlock(Blessing::KarmaAmplification));
    assert_eq!(blessings.level(&Blessing::KarmaAmplification), 0);
    assert!(!blessings.unlock(Blessing::EternalGrace));
    assert_eq!(blessings.level(&Blessing::EternalGrace), 0);
    assert_eq!(blessings.level(&Blessing::CircleOfGrace), 1);
}

#[test]
fn unlock_stops_at_the_highest_level() {
    let mut blessings = Blessings::new();
    raise(&mut blessings, Blessing::CircleOfGrace, 9);
    assert_eq!(blessings.level(&Blessing::CircleOfGrace), 10);
    assert!(!blessings.unlock(Blessing::CircleOfGrace));
    assert_eq!(blessings.level(&Blessing::CircleOfGrace), 10);
    assert!(!blessings.unlock(Blessing::CircleOfGrace));
    assert_eq!(blessings.level(&Blessing::CircleOfGrace), 10);
}

#[test]
fn eternal_grace_has_one_level() {
    let mut blessings = all_at_max();
    assert_eq!(blessings.level(&Blessing::EternalGrace), 1);
    assert!(!blessings.unlock(Blessing::EternalGrace));
    assert_eq!(blessings.level(&Blessing::EternalGrace), 1);
}

#[test]
fn params_start_from_the_first_level_of_circle_of_grace() {
    let params = Blessings::new().params();
    let start = Params::start();
    assert_eq!(params.sacred_radius, 58_000);
    assert_eq!(params, Params { sacred_radius: 58_000, ..start });
}

#[test]
fn params_end_where_every_blessing_is_at_its_highest() {
    assert_eq!(all_at_max().params(), Params::end());
}

#[test]
fn params_blend_by_the_level_of_the_governing_blessing() {
    let mut blessings = Blessings::new();
    raise(&mut blessings, Blessing::CircleOfGrace, 3);
    raise(&mut blessings, Blessing::KarmaAmplification, 3);
    raise(&mut blessings, Blessing::KarmaPersistence, 3);
    raise(&mut blessings, Blessing::SpiritualFocus, 2);
    raise(&mut blessings, Blessing::AscendantEnergy, 3);
    raise(&mut blessings, Blessing::Devotion, 1);
    raise(&mut blessings, Blessing::GracefulPause, 5);
    raise(&mut blessings, Blessing::SpiritualGate, 7);
    let params = blessings.params();
    assert_eq!(params.sacred_radius, 50_000 + 4 * 8_000);
    assert_eq!(params.karma_change_rate, 100_000 + 3 * 20_000);
    assert_eq!(params.karma_expire_rate, 15_000 - 3 * 1_000);
    assert_eq!(params.energy_time, 2_000_000 - 2 * 100_000);
    // 1 + 19 * 3 / 10, rounded down
    assert_eq!(params.energy_amount, 6);
    assert_eq!(params.following_speed, 85_000 + 6_500);
    assert!(!params.eternals);
    assert_eq!(params.slow_spawn_time, 10_000_000);
    // 18 * 7 / 10, rounded down
    assert_eq!(params.block_spawn_souls, 12);
}

#[test]
fn eternals_come_with_the_first_level_of_eternal_grace() {
    let mut blessings = all_at_max();
    assert!(blessings.params().eternals);
    // No unlock takes the feature away again.
    assert!(!blessings.unlock(Blessing::EternalGrace));
    assert!(blessings.params().eternals);
}

#[test]
fn blend_levels_rounds_towards_the_start() {
    assert_eq!(blend_levels(1, 20, 0, 10), 1);
    assert_eq!(blend_levels(1, 20, 1, 10), 2);
    assert_eq!(blend_levels(1, 20, 5, 10), 10);
    assert_eq!(blend_levels(1, 20, 10, 10), 20);
    assert_eq!(blend_levels(20, 1, 1, 10), 19);
    assert_eq!(blend_levels(20, 1, 5, 10), 11);
    assert_eq!(blend_levels(20, 1, 10, 10), 1);
    assert_eq!(blend_levels(0, u64::MAX, 255, 255), u64::MAX);
    assert_eq!(blend_levels(u64::MAX, 0, 255, 255), 0);
    assert_eq!(blend_levels(7, 7, 3, 4), 7);
}

#[test]
fn from_index_undoes_index() {
    for b in ALL {
        assert_eq!(Blessing::from_index(b.index()), Some(b));
    }
    assert_eq!(Blessing::from_index(9), None);
    assert_eq!(Blessing::from_index(255), None);
}

#[test]
fn the_ends_of_the_tuning() {
    let start = Params::start();
    assert_eq!(start.sacred_radius, 50_000);
    assert_eq!(start.karma_change_rate, 100_000);
    assert_eq!(start.karma_expire_rate, 15_000);
    assert_eq!(start.energy_time, 2_000_000);
    assert_eq!(start.energy_amount, 1);
    assert_eq!(start.following_speed, 85_000);
    assert!(!start.eternals);
    assert_eq!(start.slow_spawn_time, 0);
    assert_eq!(start.block_spawn_souls, 0);
    let end = Params::end();
    assert_eq!(end.sacred_radius, 130_000);
    assert_eq!(end.karma_change_rate, 300_000);
    assert_eq!(end.karma_expire_rate, 5_000);
    assert_eq!(end.energy_time, 1_000_000);
    assert_eq!(end.energy_amount, 20);
    assert_eq!(end.following_speed, 150_000);
    assert!(end.eternals);
    assert_eq!(end.slow_spawn_time, 20_000_000);
    assert_eq!(end.block_spawn_souls, 18);
}
