use karma_keepers::geometry::Point;
use karma_keepers::overlap::{avoid_overlap, leaves_room, take_turn};
use karma_keepers::souls::{KarmaConversion, Soul};
use karma_keepers::state::index_souls;

const SEPARATION: u32 = 20_000;

fn soul(id: u64, x: i64, y: i64, is_following: bool) -> Soul {
    Soul {
        id,
        karma: 0,
        pos: Point { x, y },
        is_following,
        energy_timer: 1_000_000,
        conversion: KarmaConversion::Neutral,
    }
}

fn gap(a: &Soul, b: &Soul) -> i128 {
    let dx = (a.pos.x - b.pos.x) as i128;
    let dy = (a.pos.y - b.pos.y) as i128;
    dx * dx + dy * dy
}

fn pass(souls: &mut Vec<Soul>) {
    let index = index_souls(souls);
    avoid_overlap(souls, SEPARATION, &index);
}

#[test]
fn a_crowded_pair_is_pushed_to_the_separation() {
    let mut souls = vec![soul(0, 0, 0, false), soul(1, 10_000, 0, false)];
    pass(&mut souls);
    assert_eq!(souls[0].pos, Point { x: -5_000, y: 0 });
    assert_eq!(souls[1].pos, Point { x: 15_000, y: 0 });
}

#[test]
fn a_following_soul_doubles_the_push() {
    let mut souls = vec![soul(0, 0, 0, false), soul(1, 10_000, 0, true)];
    pass(&mut souls);
    assert_eq!(souls[0].pos, Point { x: -10_000, y: 0 });
    assert_eq!(souls[1].pos, Point { x: 20_000, y: 0 });
}

#[test]
fn a_pass_widens_the_gap_of_a_crowded_pair() {
    let spots = [(0, 0, 1, 0), (0, 0, 19_999, 0), (300, -200, 4_000, 9_000), (5, 5, -7, 11)];
    for (ax, ay, bx, by) in spots {
        for follows in [false, true] {
            let mut souls = vec![soul(0, ax, ay, follows), soul(1, bx, by, false)];
            let before = gap(&souls[0], &souls[1]);
            pass(&mut souls);
            assert!(gap(&souls[0], &souls[1]) > before);
        }
    }
}

#[test]
fn souls_on_the_same_spot_stay() {
    let mut souls = vec![soul(0, 700, 700, false), soul(1, 700, 700, true)];
    pass(&mut souls);
    assert_eq!(souls[0].pos, Point { x: 700, y: 700 });
    assert_eq!(souls[1].pos, Point { x: 700, y: 700 });
}

#[test]
fn souls_apart_stay() {
    let mut souls = vec![soul(0, 0, 0, false), soul(1, 20_000, 0, false), soul(2, 0, 20_000, true)];
    pass(&mut souls);
    assert_eq!(souls[0].pos, Point { x: 0, y: 0 });
    assert_eq!(souls[1].pos, Point { x: 20_000, y: 0 });
    assert_eq!(souls[2].pos, Point { x: 0, y: 20_000 });
}

#[test]
fn a_push_is_seen_by_the_turns_that_follow() {
    // Souls 1 and 2 stand 22 pixels apart, which is enough. The first turn
    // pushes soul 1 five pixels towards soul 2, and the second turn finds the
    // two crowded.
    let mut souls =
        vec![soul(0, 0, 0, false), soul(1, 10_000, 0, false), soul(2, 32_000, 0, false)];
    pass(&mut souls);
    assert_eq!(souls[0].pos, Point { x: -5_000, y: 0 });
    // Souls 1 and 2 are 17 000 apart by then, so 3 000 are missing.
    assert_eq!(souls[1].pos, Point { x: 15_000 - 1_500, y: 0 });
    assert_eq!(souls[2].pos, Point { x: 32_000 + 1_500, y: 0 });
}

#[test]
fn a_push_is_seen_within_the_turn() {
    // Soul 0 is crowded by both others. Whichever of them the index reports
    // first is dealt with first, and the second is measured against where
    // soul 0 stands after that.
    let mut souls =
        vec![soul(0, 0, 0, false), soul(1, 10_000, 0, false), soul(2, 19_000, 0, false)];
    pass(&mut souls);
    let places = [souls[0].pos.x, souls[1].pos.x, souls[2].pos.x];
    // Soul 1 first: soul 0 goes to -5 000 and is 24 000 from soul 2, which is
    // enough; then souls 1 and 2, 4 000 apart, are pushed by 8 000 each.
    let one_first = [-5_000, 7_000, 27_000];
    // Soul 2 first: soul 0 goes to -500, then, 10 500 from soul 1, to -5 250;
    // then souls 1 and 2, 4 750 apart, are pushed by 7 625 each.
    let two_first = [-5_250, 7_125, 27_125];
    assert!(places == one_first || places == two_first);
    for s in &souls {
        assert_eq!(s.pos.y, 0);
    }
}

#[test]
fn a_pass_changes_places_only() {
    let mut souls = vec![soul(3, 0, 0, true), soul(9, 3_000, 4_000, false)];
    souls[0].karma = 1_234_567;
    souls[1].energy_timer = 42;
    pass(&mut souls);
    assert_eq!(souls[0].id, 3);
    assert_eq!(souls[0].karma, 1_234_567);
    assert!(souls[0].is_following);
    assert_eq!(souls[1].id, 9);
    assert_eq!(souls[1].energy_timer, 42);
    assert!(!souls[1].is_following);
}

#[test]
fn passes_settle_a_crowd() {
    let mut souls = Vec::new();
    for k in 0..30i64 {
        souls.push(soul(k as u64, 500_000 + (k % 6) * 3_000, 500_000 + (k / 6) * 3_000, false));
    }
    let crowded = |souls: &Vec<Soul>| {
        let mut pairs = 0;
        for a in 0..souls.len() {
            for b in a + 1..souls.len() {
                if gap(&souls[a], &souls[b]) < 19_000 * 19_000 {
                    pairs += 1;
                }
            }
        }
        pairs
    };
    let at_first = crowded(&souls);
    for _ in 0..300 {
        pass(&mut souls);
    }
    assert!(crowded(&souls) < at_first);
}

#[test]
fn a_pass_takes_no_souls() {
    let mut souls: Vec<Soul> = Vec::new();
    pass(&mut souls);
    assert!(souls.is_empty());
}

fn row(places: &[i64]) -> Vec<Soul> {
    places.iter().enumerate().map(|(k, x)| soul(k as u64, *x, 0, false)).collect()
}

fn xs(souls: &Vec<Soul>) -> Vec<i64> {
    souls.iter().map(|s| s.pos.x).collect()
}

#[test]
fn a_turn_deals_with_the_souls_in_the_order_given() {
    // Soul 0 is crowded by both others.
    let mut souls = row(&[0, 10_000, 19_000]);
    take_turn(&mut souls, 0, &vec![1, 2], SEPARATION);
    // Against soul 1, 10 000 are missing: 5 000 each way. Soul 0 then stands
    // 24 000 from soul 2.
    assert_eq!(xs(&souls), vec![-5_000, 15_000, 19_000]);

    let mut souls = row(&[0, 10_000, 19_000]);
    take_turn(&mut souls, 0, &vec![2, 1], SEPARATION);
    // Against soul 2, 1 000 are missing: 500 each way. Soul 0 then stands
    // 10 500 from soul 1, so 9 500 are missing: 4 750 each way.
    assert_eq!(xs(&souls), vec![-5_250, 14_750, 19_500]);
}

#[test]
fn a_turn_passes_over_the_soul_itself_and_those_stored_before() {
    let mut souls = row(&[0, 10_000, 19_000]);
    take_turn(&mut souls, 1, &vec![0, 1], SEPARATION);
    assert_eq!(xs(&souls), vec![0, 10_000, 19_000]);
    take_turn(&mut souls, 2, &vec![1, 0, 2], SEPARATION);
    assert_eq!(xs(&souls), vec![0, 10_000, 19_000]);
    take_turn(&mut souls, 1, &vec![2, 0], SEPARATION);
    // Souls 1 and 2 are 9 000 apart, so 11 000 are missing.
    assert_eq!(xs(&souls), vec![0, 4_500, 24_500]);
}

#[test]
fn a_turn_among_four_souls() {
    // Soul 1 stands between souls 2 and 3, five pixels from each.
    let mut souls = row(&[100_000, 0, 5_000, -5_000]);
    take_turn(&mut souls, 1, &vec![3, 0, 2], SEPARATION);
    // Soul 3 first: 15 000 are missing, 7 500 each way, which puts soul 1 at
    // 7 500 and soul 3 at -12 500. Soul 2 is then 2 500 to the left of soul
    // 1: 17 500 are missing, 8 750 each way.
    assert_eq!(xs(&souls), vec![100_000, 16_250, -3_750, -12_500]);

    let mut souls = row(&[100_000, 0, 5_000, -5_000]);
    take_turn(&mut souls, 1, &vec![2, 3], SEPARATION);
    // Soul 2 first: soul 1 goes to -7 500 and soul 2 to 12 500. Soul 3 is
    // then 2 500 to the right of soul 1.
    assert_eq!(xs(&souls), vec![100_000, -16_250, 12_500, 3_750]);
}

#[test]
fn a_turn_without_hits_changes_nothing() {
    let mut souls = row(&[0, 1_000, 2_000]);
    take_turn(&mut souls, 0, &Vec::new(), SEPARATION);
    assert_eq!(xs(&souls), vec![0, 1_000, 2_000]);
}

#[test]
fn a_pass_takes_the_largest_separation() {
    let mut souls = row(&[0, 1_000_000_000]);
    let index = index_souls(&souls);
    avoid_overlap(&mut souls, u32::MAX, &index);
    // 3 294 967 295 are missing of 4 294 967 295: half of it each way,
    // rounded away from zero.
    assert_eq!(xs(&souls), vec![-1_647_483_648, 2_647_483_648]);
}

#[test]
fn a_pass_takes_souls_far_from_the_origin() {
    let far = (1i64 << 60) - 2 * 20_000;
    let mut souls = vec![soul(0, far, -far, false), soul(1, far - 10_000, -far, false)];
    pass(&mut souls);
    assert_eq!(souls[0].pos, Point { x: far + 5_000, y: -far });
    assert_eq!(souls[1].pos, Point { x: far - 15_000, y: -far });
}

#[test]
fn souls_leave_room_while_every_push_stays_in_the_world() {
    let limit = 1i64 << 60;
    assert!(leaves_room(&Vec::new(), u32::MAX));
    assert!(leaves_room(&row(&[0, 5]), u32::MAX));
    assert!(leaves_room(&row(&[limit - 40_000, 0]), 20_000));
    assert!(!leaves_room(&row(&[limit - 39_999, 0]), 20_000));
    assert!(leaves_room(&row(&[-(limit - 40_000), 0]), 20_000));
    assert!(!leaves_room(&row(&[0, -(limit - 39_999)]), 20_000));
    assert!(leaves_room(&row(&[limit]), 0));
    assert!(!leaves_room(&row(&[limit + 1]), 0));
    let high = vec![soul(0, 0, limit - 19_999, false)];
    assert!(!leaves_room(&high, 20_000));
}
