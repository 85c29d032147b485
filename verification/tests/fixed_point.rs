use karma_keepers::fixed::{accrue, isqrt, scale};
use karma_keepers::geometry::{is_close, move_towards, separation_push, Point};

fn at(x: i64, y: i64) -> Point {
    Point { x, y }
}

#[test]
fn accrue_rounds_down() {
    assert_eq!(accrue(15_000, 16_667), 250);
    assert_eq!(accrue(1, 999_999), 0);
    assert_eq!(accrue(1, 1_000_000), 1);
    assert_eq!(accrue(160_000, 500_000), 80_000);
    assert_eq!(accrue(0, 4_000_000_000), 0);
}

#[test]
fn accrue_takes_the_largest_inputs() {
    assert_eq!(
        accrue(u64::MAX, u32::MAX),
        (u64::MAX as u128) * (u32::MAX as u128) / 1_000_000
    );
}

#[test]
fn isqrt_is_the_floor_of_the_root() {
    assert_eq!(isqrt(0), 0);
    assert_eq!(isqrt(1), 1);
    assert_eq!(isqrt(2), 1);
    assert_eq!(isqrt(3), 1);
    assert_eq!(isqrt(4), 2);
    assert_eq!(isqrt(24), 4);
    assert_eq!(isqrt(25), 5);
    assert_eq!(isqrt(1_000_000_000_000), 1_000_000);
    assert_eq!(isqrt(999_999_999_999), 999_999);
    assert_eq!(isqrt(u128::MAX), u64::MAX);
}

#[test]
fn scale_rounds_away_from_zero() {
    assert_eq!(scale(1, 1, 2), 1);
    assert_eq!(scale(-1, 1, 2), -1);
    assert_eq!(scale(0, 5, 3), 0);
    assert_eq!(scale(7, 3, 2), 11);
    assert_eq!(scale(-7, 3, 2), -11);
    assert_eq!(scale(6, 1, 3), 2);
    assert_eq!(scale(5, 0, 3), 0);
}

#[test]
fn is_close_includes_the_rim() {
    assert!(is_close(at(3, 4), at(0, 0), 5));
    assert!(!is_close(at(3, 4), at(0, 0), 4));
    assert!(is_close(at(7, 7), at(7, 7), 0));
    assert!(!is_close(at(7, 8), at(7, 7), 0));
}

#[test]
fn is_close_takes_far_points() {
    assert!(!is_close(at(i64::MIN, i64::MIN), at(i64::MAX, i64::MAX), u32::MAX));
    assert!(is_close(at(i64::MAX, i64::MIN), at(i64::MAX, i64::MIN), 1));
    assert!(is_close(at(0, 0), at(u32::MAX as i64, 0), u32::MAX));
    assert!(!is_close(at(0, 1), at(u32::MAX as i64, 0), u32::MAX));
}

#[test]
fn move_towards_steps_along_the_line() {
    assert_eq!(move_towards(at(0, 0), at(3000, 4000), 1000), at(600, 800));
    assert_eq!(move_towards(at(100, 100), at(-2900, -3900), 1000), at(-500, -700));
}

#[test]
fn move_towards_stays_on_the_target() {
    assert_eq!(move_towards(at(5, 6), at(5, 6), 1000), at(5, 6));
}

#[test]
fn move_towards_may_pass_the_target() {
    assert_eq!(move_towards(at(0, 0), at(3000, 4000), 10_000), at(6000, 8000));
}

#[test]
fn move_towards_without_a_step_stays() {
    assert_eq!(move_towards(at(0, 0), at(3000, 4000), 0), at(0, 0));
}

#[test]
fn move_towards_rounds_each_axis_away_from_zero() {
    // The way is (1, 1), of integer length 1: a step of 1 moves one unit on
    // each axis.
    assert_eq!(move_towards(at(0, 0), at(1, 1), 1), at(1, 1));
    // The way is (10, 0): a third of a unit is still one unit.
    assert_eq!(move_towards(at(0, 0), at(30, 0), 1), at(1, 0));
}

#[test]
fn separation_pushes_by_half_the_overlap() {
    let push = separation_push(at(0, 0), at(6000, 8000), 20_000, false);
    assert_eq!(push, at(-3000, -4000));
}

#[test]
fn separation_pushes_twice_as_hard_when_following() {
    let push = separation_push(at(0, 0), at(6000, 8000), 20_000, true);
    assert_eq!(push, at(-6000, -8000));
}

#[test]
fn separation_leaves_souls_that_are_apart() {
    assert_eq!(separation_push(at(0, 0), at(20_000, 0), 20_000, false), at(0, 0));
    assert_eq!(separation_push(at(0, 0), at(12_000, 16_000), 20_000, true), at(0, 0));
    assert_eq!(separation_push(at(0, 0), at(i64::MAX, i64::MIN), 20_000, true), at(0, 0));
}

#[test]
fn separation_leaves_souls_on_the_same_spot() {
    assert_eq!(separation_push(at(42, 42), at(42, 42), 20_000, false), at(0, 0));
    assert_eq!(separation_push(at(42, 42), at(42, 42), 20_000, true), at(0, 0));
}

#[test]
fn separation_never_rounds_to_nothing() {
    // One unit short of the separation: half a unit is missing on each side.
    let push = separation_push(at(19_999, 0), at(0, 0), 20_000, false);
    assert_eq!(push, at(1, 0));
}

#[test]
fn separation_widens_the_gap() {
    let a = at(1_000, 2_000);
    let b = at(4_000, -1_500);
    let push = separation_push(a, b, 20_000, false);
    let a2 = at(a.x + push.x, a.y + push.y);
    let b2 = at(b.x - push.x, b.y - push.y);
    let before = (a.x - b.x).pow(2) + (a.y - b.y).pow(2);
    let after = (a2.x - b2.x).pow(2) + (a2.y - b2.y).pow(2);
    assert!(after > before);
}

#[test]
fn is_in_world_follows_the_limit() {
    assert!(at(0, 0).is_in_world());
    assert!(at(1 << 60, -(1 << 60)).is_in_world());
    assert!(!at((1 << 60) + 1, 0).is_in_world());
    assert!(!at(0, -(1 << 60) - 1).is_in_world());
}
