use pixie_wrangler::geom::Point;
use pixie_wrangler::level::{
    level_item_stars, num_stars, obstacle_edges, path_requests, score_dialog, stars_for, Obstacle, PathRequest, PixieFlavor,
    Terminus, NUM_LEVELS,
};
use pixie_wrangler::save::BestScores;

fn pt(x: i32, y: i32) -> Point {
    Point::new(x, y)
}

#[test]
fn stars_count_reached_thresholds() {
    let t = vec![100, 200, 300];
    assert_eq!(stars_for(&t, 0), 0);
    assert_eq!(stars_for(&t, 99), 0);
    assert_eq!(stars_for(&t, 100), 1);
    assert_eq!(stars_for(&t, 250), 2);
    assert_eq!(stars_for(&t, 300), 3);
    assert_eq!(stars_for(&t, u32::MAX), 3);
    assert_eq!(stars_for(&vec![], 5), 0);
    // thresholds need not be sorted
    assert_eq!(stars_for(&vec![300, 100, 200], 150), 1);
}

#[test]
fn better_score_never_earns_fewer_stars() {
    let t = vec![40, 10, 25, 25];
    let mut last = 0;
    for score in 0..60 {
        let s = stars_for(&t, score);
        assert!(s >= last);
        last = s;
    }
    assert_eq!(last, 4);
}

#[test]
fn stars_over_all_levels() {
    let mut scores = BestScores::new();
    scores.record(1, 25);
    scores.record(2, 1);
    scores.record(12, 1000);
    scores.record(13, 1000);
    let mut levels: Vec<Option<Vec<u32>>> = vec![None; NUM_LEVELS as usize];
    levels[0] = Some(vec![10, 20, 30]);
    levels[1] = Some(vec![5]);
    levels[2] = Some(vec![1, 2]);
    levels[11] = Some(vec![100, 500, 999]);
    // level 1: 2 of 3, level 2: 0 of 1, level 3: unplayed, 0 of 2,
    // level 12: 3 of 3; level 13 is not a level
    assert_eq!(num_stars(&scores, &levels), (5, 9));
    // fewer levels loaded than there are
    let short: Vec<Option<Vec<u32>>> = vec![Some(vec![10, 20, 30])];
    assert_eq!(num_stars(&scores, &short), (2, 3));
    assert_eq!(num_stars(&BestScores::new(), &levels), (0, 9));
}

#[test]
fn rect_edges_go_around() {
    let edges = obstacle_edges(Obstacle::Rect(pt(-10, 20), pt(30, -40)));
    assert_eq!(
        edges,
        [
            (pt(-10, 20), pt(30, 20)),
            (pt(30, 20), pt(30, -40)),
            (pt(30, -40), pt(-10, -40)),
            (pt(-10, -40), pt(-10, 20)),
        ]
    );
}

fn flavor(color: u32, net: u32) -> PixieFlavor {
    PixieFlavor { color, net }
}

#[test]
fn requests_pair_emitters_with_collectors() {
    let f1 = flavor(1, 0);
    let f2 = flavor(2, 1);
    let terminuses = vec![
        Terminus { point: pt(0, 0), emits: vec![f1], collects: vec![] },
        Terminus { point: pt(10, 0), emits: vec![], collects: vec![f1, f2] },
        Terminus { point: pt(20, 0), emits: vec![f2, f1], collects: vec![f1] },
    ];
    let r = path_requests(&terminuses);
    assert_eq!(
        r,
        vec![
            PathRequest { flavor: f1, from: 0, to: 1 },
            PathRequest { flavor: f1, from: 0, to: 2 },
            PathRequest { flavor: f2, from: 2, to: 1 },
            PathRequest { flavor: f1, from: 2, to: 1 },
            PathRequest { flavor: f1, from: 2, to: 2 },
        ]
    );
    assert_eq!(path_requests(&vec![]), vec![]);
    assert_eq!(PixieFlavor::default(), flavor(0, 0));
}

#[test]
fn score_dialog_shows_stars_of_three() {
    let t = Some(vec![100, 200, 300]);
    assert_eq!(score_dialog(true, true, false, &t, Some(250)), Some((250, 2, 1)));
    assert_eq!(score_dialog(true, true, false, &t, Some(50)), Some((50, 0, 3)));
    assert_eq!(score_dialog(true, true, false, &t, Some(300)), Some((300, 3, 0)));
    assert_eq!(score_dialog(false, true, false, &t, Some(250)), None);
    assert_eq!(score_dialog(true, false, false, &t, Some(250)), None);
    assert_eq!(score_dialog(true, true, true, &t, Some(250)), None);
    assert_eq!(score_dialog(true, true, false, &None, Some(250)), None);
    assert_eq!(score_dialog(true, true, false, &t, None), None);
}

#[test]
fn level_items_show_the_best_score() {
    let mut scores = BestScores::new();
    scores.record(2, 210);
    let t = vec![100, 200, 300];
    assert_eq!(level_item_stars(&scores, 2, &t), Some((210, 2, 1)));
    assert_eq!(level_item_stars(&scores, 1, &t), None);
}
