use karma_keepers::geometry::Aabb;
use karma_keepers::spatial::SpatialIndex;

fn boxed(min_x: i64, min_y: i64, max_x: i64, max_y: i64) -> Aabb {
    Aabb { min_x, min_y, max_x, max_y }
}

fn sorted(mut hits: Vec<usize>) -> Vec<usize> {
    hits.sort();
    hits
}

fn overlaps(a: &Aabb, b: &Aabb) -> bool {
    a.max_x >= b.min_x && a.max_y >= b.min_y && a.min_x <= b.max_x && a.min_y <= b.max_y
}

#[test]
fn an_empty_index_answers_nothing() {
    let index = SpatialIndex::build(&Vec::new());
    assert_eq!(index.query(boxed(-1000, -1000, 1000, 1000)), Vec::<usize>::new());
}

#[test]
fn query_reports_the_boxes_that_overlap() {
    let boxes = vec![
        boxed(0, 0, 2, 2),
        boxed(-1, -1, 3, 3),
        boxed(0, 0, 1, 3),
        boxed(4, 2, 16, 8),
    ];
    let index = SpatialIndex::build(&boxes);
    assert_eq!(sorted(index.query(boxed(-1, -1, -1, -1))), vec![1]);
    assert_eq!(sorted(index.query(boxed(0, 0, 1, 1))), vec![0, 1, 2]);
    assert_eq!(sorted(index.query(boxed(5, 3, 6, 4))), vec![3]);
    assert_eq!(sorted(index.query(boxed(-100, -100, 100, 100))), vec![0, 1, 2, 3]);
    assert_eq!(sorted(index.query(boxed(17, 9, 20, 20))), Vec::<usize>::new());
}

#[test]
fn boxes_that_touch_overlap() {
    let index = SpatialIndex::build(&vec![boxed(0, 0, 10, 10)]);
    assert_eq!(index.query(boxed(10, 10, 20, 20)), vec![0]);
    assert_eq!(index.query(boxed(-5, -5, 0, 0)), vec![0]);
    assert_eq!(index.query(boxed(11, 0, 20, 10)), Vec::<usize>::new());
}

#[test]
fn equal_boxes_are_all_reported() {
    let boxes = vec![boxed(3, 3, 4, 4); 40];
    let index = SpatialIndex::build(&boxes);
    assert_eq!(sorted(index.query(boxed(0, 0, 3, 3))), (0..40).collect::<Vec<usize>>());
}

#[test]
fn a_large_index_answers_like_a_scan() {
    // 400 boxes on a grid: enough for several levels of the tree.
    let mut boxes = Vec::new();
    for i in 0..20i64 {
        for j in 0..20i64 {
            boxes.push(boxed(i * 1000, j * 700, i * 1000 + 1600, j * 700 + 1600));
        }
    }
    let index = SpatialIndex::build(&boxes);
    let areas = [
        boxed(0, 0, 0, 0),
        boxed(2500, 2500, 7200, 3100),
        boxed(-500, -500, 30_000, 30_000),
        boxed(19_000, 13_300, 19_000, 13_300),
        boxed(50_000, 0, 60_000, 10),
        boxed(9_999, 0, 10_000, 20_000),
    ];
    for area in areas {
        let expected: Vec<usize> =
            (0..boxes.len()).filter(|k| overlaps(&boxes[*k], &area)).collect();
        let hits = index.query(area);
        assert_eq!(sorted(hits), expected);
    }
}

#[test]
fn the_same_question_gets_the_same_answer() {
    let mut boxes = Vec::new();
    for i in 0..50i64 {
        boxes.push(boxed(i * 300, (i * 7919) % 5000, i * 300 + 1600, (i * 7919) % 5000 + 1600));
    }
    let first = SpatialIndex::build(&boxes);
    let second = SpatialIndex::build(&boxes);
    let area = boxed(1000, 0, 9000, 4000);
    assert_eq!(first.query(area), first.query(area));
    assert_eq!(first.query(area), second.query(area));
}

#[test]
fn boxes_far_from_the_origin_are_indexed() {
    let far = 1i64 << 61;
    let boxes = vec![boxed(-far, -far, -far + 5, -far + 5), boxed(far - 5, far - 5, far, far)];
    let index = SpatialIndex::build(&boxes);
    assert_eq!(index.query(boxed(far, far, far, far)), vec![1]);
    assert_eq!(index.query(boxed(-far, -far, -far, -far)), vec![0]);
    assert_eq!(sorted(index.query(boxed(i64::MIN, i64::MIN, i64::MAX, i64::MAX))), vec![0, 1]);
}

#[test]
fn len_counts_the_boxes() {
    assert_eq!(SpatialIndex::build(&Vec::new()).len(), 0);
    assert_eq!(SpatialIndex::build(&vec![boxed(0, 0, 1, 1); 3]).len(), 3);
    assert_eq!(SpatialIndex::build(&vec![boxed(0, 0, 1, 1); 100]).len(), 100);
}

#[test]
fn a_box_is_valid_with_its_corners_in_order() {
    let far = 1i64 << 61;
    assert!(boxed(0, 0, 0, 0).is_valid());
    assert!(boxed(-far, -far, far, far).is_valid());
    assert!(!boxed(1, 0, 0, 0).is_valid());
    assert!(!boxed(0, 1, 0, 0).is_valid());
    assert!(!boxed(0, 0, far + 1, 0).is_valid());
    assert!(!boxed(0, -far - 1, 0, 0).is_valid());
}
