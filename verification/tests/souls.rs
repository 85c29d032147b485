use karma_keepers::geometry::Point;
use karma_keepers::souls::{KarmaConversion, Soul, SoulKind};

fn soul_with(karma: i64) -> Soul {
    Soul {
        id: 7,
        karma,
        pos: Point { x: 0, y: 0 },
        is_following: false,
        energy_timer: 1,
        conversion: KarmaConversion::Neutral,
    }
}

#[test]
fn kind_follows_the_thresholds() {
    assert_eq!(soul_with(-2_000_000).kind(), SoulKind::Shadow);
    assert_eq!(soul_with(-1_000_000).kind(), SoulKind::Shadow);
    assert_eq!(soul_with(-999_999).kind(), SoulKind::Neutral);
    assert_eq!(soul_with(0).kind(), SoulKind::Neutral);
    assert_eq!(soul_with(999_999).kind(), SoulKind::Neutral);
    assert_eq!(soul_with(1_000_000).kind(), SoulKind::Luminal);
    assert_eq!(soul_with(4_999_999).kind(), SoulKind::Luminal);
    assert_eq!(soul_with(5_000_000).kind(), SoulKind::Eternal);
    assert_eq!(soul_with(6_000_000).kind(), SoulKind::Eternal);
}

#[test]
fn kind_takes_any_karma() {
    assert_eq!(soul_with(i64::MIN).kind(), SoulKind::Shadow);
    assert_eq!(soul_with(i64::MAX).kind(), SoulKind::Eternal);
}

#[test]
fn kind_depends_on_karma_alone() {
    let a = soul_with(1_400_000);
    let b = Soul {
        id: 99,
        pos: Point { x: 5, y: -5 },
        is_following: true,
        energy_timer: 123,
        conversion: KarmaConversion::Bad,
        ..a
    };
    assert_eq!(a.kind(), b.kind());
}

#[test]
fn a_soul_at_one_point_four_is_luminal() {
    assert_eq!(soul_with(1_400_000).kind(), SoulKind::Luminal);
}

#[test]
fn good_bad_and_neutral_part_the_scale() {
    for karma in [-2_000_000i64, -1_000_000, -999_999, 0, 999_999, 1_000_000, 5_000_000] {
        let soul = soul_with(karma);
        let hits = [soul.is_good(), soul.is_bad(), soul.is_neutral()];
        assert_eq!(hits.iter().filter(|h| **h).count(), 1);
    }
    assert!(soul_with(1_000_000).is_good());
    assert!(soul_with(5_500_000).is_good());
    assert!(soul_with(-1_000_000).is_bad());
    assert!(soul_with(999_999).is_neutral());
}

#[test]
fn the_default_kind_is_neutral() {
    assert_eq!(SoulKind::default(), SoulKind::Neutral);
}

#[test]
fn souls_are_told_apart_by_their_ids() {
    let a = soul_with(100);
    let same = Soul { karma: -5, pos: Point { x: 9, y: 9 }, ..a };
    let other = Soul { id: 8, ..a };
    assert!(a == same);
    assert!(a != other);
}

#[test]
fn idle_movement_wanders_as_the_jitter_says() {
    let mut soul = soul_with(0);
    soul.pos = Point { x: 500_000, y: 500_000 };
    soul.idle_movement((100, -100), 1_000_000);
    assert_eq!(soul.pos, Point { x: 520_000, y: 480_000 });
    soul.idle_movement((0, 0), 1_000_000);
    assert_eq!(soul.pos, Point { x: 520_000, y: 480_000 });
    soul.idle_movement((-37, 1), 16_667);
    // 37 * 200 * 16 667 / 1 000 000 is 123.3, and 200 * 16 667 / 1 000 000
    // is 3.3: both are rounded away from zero.
    assert_eq!(soul.pos, Point { x: 520_000 - 124, y: 480_000 + 4 });
    soul.idle_movement((100, 100), 0);
    assert_eq!(soul.pos, Point { x: 520_000 - 124, y: 480_000 + 4 });
}

#[test]
fn idle_movement_changes_the_place_only() {
    let mut soul = soul_with(1_234_567);
    soul.is_following = true;
    soul.idle_movement((i32::MAX, i32::MIN), u32::MAX);
    assert_eq!(soul.id, 7);
    assert_eq!(soul.karma, 1_234_567);
    assert!(soul.is_following);
    assert_eq!(soul.energy_timer, 1);
    // 200 * (2^31 - 1) * (2^32 - 1) / 1 000 000, rounded away from zero.
    assert_eq!(soul.pos.x, 1_844_674_406_082_465);
    assert_eq!(soul.pos.y, -1_844_674_406_941_459);
}
