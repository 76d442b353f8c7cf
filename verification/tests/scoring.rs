use tetris_core::score::{points, ScoreKeeper};

#[test]
fn point_table() {
    assert_eq!(points(0), 0);
    assert_eq!(points(1), 40);
    assert_eq!(points(2), 100);
    assert_eq!(points(3), 300);
    assert_eq!(points(4), 1200);
}

#[test]
fn score_deltas_at_level_one() {
    for (n, delta) in [(1u32, 80u64), (2, 200), (3, 600), (4, 2400)] {
        let mut sk = ScoreKeeper::new();
        sk.record_clear(n);
        assert_eq!(sk.score, delta);
        assert_eq!(sk.lines, n as u64);
        assert_eq!(sk.level, 1);
    }
}

#[test]
fn score_scales_with_level() {
    let mut sk = ScoreKeeper { score: 0, lines: 10, level: 3 };
    sk.record_clear(2);
    // 100 base points, multiplied by one more than the level
    assert_eq!(sk.score, 400);
}

#[test]
fn level_up_on_crossing_five_lines() {
    let mut sk = ScoreKeeper { score: 0, lines: 4, level: 1 };
    sk.record_clear(1);
    assert_eq!(sk.lines, 5);
    assert_eq!(sk.level, 2);
}

#[test]
fn level_up_once_even_when_four_lines_cross() {
    let mut sk = ScoreKeeper { score: 0, lines: 4, level: 1 };
    sk.record_clear(4);
    assert_eq!(sk.lines, 8);
    assert_eq!(sk.level, 2);
}

#[test]
fn no_level_up_without_crossing() {
    let mut sk = ScoreKeeper::new();
    sk.record_clear(4);
    assert_eq!(sk.lines, 4);
    assert_eq!(sk.level, 1);
    let mut sk2 = ScoreKeeper { score: 0, lines: 5, level: 2 };
    sk2.record_clear(4);
    assert_eq!(sk2.lines, 9);
    assert_eq!(sk2.level, 2);
}

#[test]
fn zero_rows_change_nothing() {
    let mut sk = ScoreKeeper { score: 123, lines: 7, level: 2 };
    sk.record_clear(0);
    assert_eq!(sk.score, 123);
    assert_eq!(sk.lines, 7);
    assert_eq!(sk.level, 2);
}
