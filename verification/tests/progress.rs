use asset_bundler::progress::{increase_progress, Percentage, ProgressState};

fn value(p: Percentage) -> f64 {
    p.numerator as f64 / p.denominator as f64
}

#[test]
fn there_is_no_tracker_for_a_run_of_nothing() {
    assert!(ProgressState::new(0, 0).is_none());
    assert!(ProgressState::new(5, 0).is_none());
    assert!(ProgressState::new(0, 1).is_some());
}

#[test]
fn percentage_is_start_plus_current_over_max() {
    let mut p = ProgressState::new(1, 5).unwrap();
    assert_eq!(p.read_percentage(), Percentage { numerator: 100, denominator: 5 });
    assert!(p.advance(1, 1));
    assert_eq!(p.read_percentage(), Percentage { numerator: 200, denominator: 5 });
    assert!(p.advance(2, 4));
    assert_eq!(p.read_percentage(), Percentage { numerator: 1000, denominator: 20 });
    assert!(p.advance(1, 2));
    assert_eq!(p.read_percentage(), Percentage { numerator: 1200, denominator: 20 });
    assert_eq!(value(p.read_percentage()), 60.0);
}

#[test]
fn increase_progress_counts_one_unit() {
    let mut p = ProgressState::new(0, 4).unwrap();
    assert_eq!(increase_progress(&mut p), Percentage { numerator: 100, denominator: 4 });
    assert_eq!(increase_progress(&mut p), Percentage { numerator: 200, denominator: 4 });
    assert!(p.advance(1, 3));
    assert_eq!(increase_progress(&mut p), Percentage { numerator: 1000, denominator: 12 });
}

#[test]
fn steps_that_cannot_be_taken_change_nothing() {
    let mut p = ProgressState::new(0, 3).unwrap();
    assert!(!p.advance(1, 0));
    assert!(!p.advance(0, 1));
    assert_eq!(p.read_percentage(), Percentage { numerator: 0, denominator: 3 });
    assert!(p.advance(u64::MAX, 1));
    assert!(!p.advance(1, 1));
    assert!(!p.advance(1, 2));
    assert_eq!(
        p.read_percentage(),
        Percentage { numerator: 100 * (u64::MAX as u128), denominator: 3 }
    );
}

#[test]
fn percentage_never_decreases() {
    let steps: [(u64, u64); 9] =
        [(1, 1), (2, 19), (2, 19), (0, 5), (1, 0), (7, 3), (u64::MAX, 2), (1, 1000), (3, 1)];
    let mut p = ProgressState::new(2, 40).unwrap();
    let mut last = p.read_percentage();
    for (num, den) in steps {
        p.advance(num, den);
        let now = p.read_percentage();
        assert!(last.numerator * now.denominator <= now.numerator * last.denominator);
        last = now;
    }
}
