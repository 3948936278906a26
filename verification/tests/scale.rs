use raster::scale::{scale_round, scale_trunc};

#[test]
fn rounds_halves_away_from_zero() {
    assert_eq!(scale_round(8, 2, 4), 4);
    assert_eq!(scale_round(4, 2, 3), 3); // 2.67
    assert_eq!(scale_round(5, 2, 4), 3); // 2.5
    assert_eq!(scale_round(1, 1, 3), 0); // 0.33
    assert_eq!(scale_round(1, 1, 2), 1); // 0.5
    assert_eq!(scale_round(-5, 2, 4), -3); // -2.5
    assert_eq!(scale_round(-1, 1, 3), 0);
}

#[test]
fn truncates_toward_zero() {
    assert_eq!(scale_trunc(3, 3, 2), 4); // 4.5
    assert_eq!(scale_trunc(5, 2, 3), 3); // 3.33
    assert_eq!(scale_trunc(-3, 3, 2), -4);
    assert_eq!(scale_trunc(1, 1, 2), 0);
}

#[test]
fn a_zero_denominator_is_unbounded() {
    assert_eq!(scale_round(5, 3, 0), i32::MAX);
    assert_eq!(scale_round(-5, 3, 0), i32::MIN);
    assert_eq!(scale_round(0, 3, 0), 0);
    assert_eq!(scale_round(5, 0, 0), 0);
    assert_eq!(scale_trunc(5, 3, 0), i32::MAX);
    assert_eq!(scale_trunc(-5, 3, 0), i32::MIN);
    assert_eq!(scale_trunc(5, 0, 0), 0);
}

#[test]
fn a_zero_numerator_gives_zero() {
    assert_eq!(scale_round(5, 0, 7), 0);
    assert_eq!(scale_trunc(5, 0, 7), 0);
    assert_eq!(scale_round(-5, 0, 7), 0);
}

#[test]
fn large_results_saturate() {
    assert_eq!(scale_round(i32::MAX, i32::MAX, 1), i32::MAX);
    assert_eq!(scale_trunc(i32::MAX, i32::MAX, 1), i32::MAX);
    assert_eq!(scale_round(i32::MIN, i32::MAX, 1), i32::MIN);
    assert_eq!(scale_trunc(i32::MIN, i32::MAX, 1), i32::MIN);
    assert_eq!(scale_round(i32::MAX, 1, 1), i32::MAX);
    assert_eq!(scale_round(i32::MIN, 1, 1), i32::MIN);
    assert_eq!(scale_round(i32::MAX, i32::MAX, i32::MAX), i32::MAX);
    assert_eq!(scale_trunc(i32::MIN, i32::MAX, i32::MAX), i32::MIN);
}
