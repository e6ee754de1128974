use pixie_wrangler::geom::{Point, RoadSegment};
use pixie_wrangler::save::{music_action, BestScores, MusicAction, MusicVolume, Solutions};

#[test]
fn best_score_is_kept() {
    let mut scores = BestScores::new();
    assert_eq!(scores.best(1), None);
    scores.record(1, 100);
    assert_eq!(scores.best(1), Some(100));
    scores.record(1, 50);
    assert_eq!(scores.best(1), Some(100));
    scores.record(1, 150);
    assert_eq!(scores.best(1), Some(150));
    assert_eq!(scores.best(2), None);
    scores.record(2, 7);
    assert_eq!(scores.best(2), Some(7));
    assert_eq!(scores.best(1), Some(150));
    assert_eq!(BestScores::default().best(1), None);
}

#[test]
fn recording_never_lowers_any_level() {
    let mut scores = BestScores::new();
    let plays = [(1, 30), (2, 10), (1, 20), (3, 5), (2, 40), (1, 30), (3, 1)];
    let mut expected = [0u32; 4];
    for (level, score) in plays {
        let before: Vec<Option<u32>> = (1..4).map(|l| scores.best(l)).collect();
        scores.record(level, score);
        expected[level as usize] = expected[level as usize].max(score);
        for l in 1..4u32 {
            let after = scores.best(l);
            if let Some(b) = before[(l - 1) as usize] {
                assert!(after.unwrap() >= b);
            }
            if l != level {
                assert_eq!(after, before[(l - 1) as usize]);
            }
        }
        assert_eq!(scores.best(level), Some(expected[level as usize]));
    }
}

#[test]
fn total_of_best_scores() {
    let mut scores = BestScores::new();
    assert_eq!(scores.total(), Some(0));
    scores.record(1, 100);
    scores.record(2, 30);
    scores.record(1, 80);
    assert_eq!(scores.total(), Some(130));
    scores.record(5, 12);
    assert_eq!(scores.total(), Some(142));
}

#[test]
fn total_that_overflows_is_none() {
    let mut scores = BestScores::new();
    scores.record(1, u32::MAX);
    assert_eq!(scores.total(), Some(u32::MAX));
    scores.record(2, 1);
    assert_eq!(scores.total(), None);
}

fn seg(x0: i32, y0: i32, x1: i32, y1: i32, layer: u32) -> RoadSegment {
    RoadSegment { points: (Point::new(x0, y0), Point::new(x1, y1)), layer }
}

#[test]
fn solutions_are_saved_per_level() {
    let mut solutions = Solutions::new();
    assert!(solutions.get(3).is_none());
    solutions.save(3, vec![seg(0, 0, 10, 0, 1), seg(10, 0, 20, 10, 2)]);
    let s = solutions.get(3).unwrap();
    assert_eq!(s.segments.len(), 2);
    assert_eq!(s.segments[1].points, (Point::new(10, 0), Point::new(20, 10)));
    assert_eq!(s.segments[1].layer, 2);
    assert!(solutions.get(4).is_none());
    solutions.save(3, vec![seg(1, 1, 2, 2, 3)]);
    let s = solutions.get(3).unwrap();
    assert_eq!(s.segments.len(), 1);
    assert_eq!(s.segments[0].layer, 3);
    assert!(Solutions::default().get(3).is_none());
}

#[test]
fn music_volume_steps() {
    assert_eq!(MusicVolume::default(), MusicVolume(50));
    assert_eq!(MusicVolume(50).raised(), MusicVolume(60));
    assert_eq!(MusicVolume(95).raised(), MusicVolume(100));
    assert_eq!(MusicVolume(100).raised(), MusicVolume(100));
    assert_eq!(MusicVolume(50).lowered(), MusicVolume(40));
    assert_eq!(MusicVolume(5).lowered(), MusicVolume(0));
    assert_eq!(MusicVolume(0).lowered(), MusicVolume(0));
    assert!(MusicVolume(0).is_muted());
    assert!(!MusicVolume(10).is_muted());
}

#[test]
fn music_follows_the_volume() {
    assert_eq!(music_action(MusicVolume(0), true), MusicAction::Stop);
    assert_eq!(music_action(MusicVolume(0), false), MusicAction::Nothing);
    assert_eq!(music_action(MusicVolume(30), true), MusicAction::SetVolume);
    assert_eq!(music_action(MusicVolume(30), false), MusicAction::Start);
}
