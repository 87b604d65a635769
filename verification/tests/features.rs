use rsnowboy::feature::{amdf, extract, extract_into, level, peak};

#[test]
fn level_is_the_mean_magnitude() {
    assert_eq!(level(&vec![100, -100, 100, -100]), 100);
    assert_eq!(level(&vec![1, 2, 3, 4]), 2);
    assert_eq!(level(&vec![0, 0, 0]), 0);
    assert_eq!(level(&vec![-32768, -32768]), 32768);
    assert_eq!(level(&vec![32767]), 32767);
    assert_eq!(level(&vec![1, 0, 0, 0]), 0);
}

#[test]
fn peak_is_the_largest_magnitude() {
    assert_eq!(peak(&vec![1, -7, 3]), 7);
    assert_eq!(peak(&vec![0, 0]), 0);
    assert_eq!(peak(&vec![-32768, 32767]), 32768);
    assert_eq!(peak(&vec![]), 0);
}

#[test]
fn the_magnitude_difference_measures_change_at_a_lag() {
    let frame = vec![100, -100, 100, -100];
    assert_eq!(amdf(&frame, 1), 150);
    assert_eq!(amdf(&frame, 2), 0);
    assert_eq!(amdf(&frame, 3), 50);
    let ramp = vec![1, 2, 3, 4];
    assert_eq!(amdf(&ramp, 1), 0);
    assert_eq!(amdf(&ramp, 2), 1);
    assert_eq!(amdf(&ramp, 3), 0);
}

#[test]
fn a_lag_as_long_as_the_frame_compares_nothing() {
    let frame = vec![100, -100, 100, -100];
    assert_eq!(amdf(&frame, 4), 0);
    assert_eq!(amdf(&frame, 400), 0);
}

#[test]
fn the_largest_difference_fits() {
    let frame = vec![32767, -32768, 32767, -32768];
    assert_eq!(amdf(&frame, 1), 49151);
    let frame = vec![32767, -32768];
    assert_eq!(amdf(&frame, 1), 32767);
}

#[test]
fn the_feature_vector_starts_with_the_level() {
    assert_eq!(extract(&vec![100, -100, 100, -100], 3), vec![100, 150, 0]);
    assert_eq!(extract(&vec![1, 2, 3, 4], 4), vec![2, 0, 1, 0]);
    assert_eq!(extract(&vec![5, 5, 5, 5], 1), vec![5]);
    assert_eq!(extract(&vec![5, 5, 5, 5], 0), Vec::<i32>::new());
}

#[test]
fn equal_frames_give_equal_features() {
    let frame = vec![12, -900, 31000, -4, 0, 77, -32768, 32767];
    assert_eq!(extract(&frame, 5), extract(&frame.clone(), 5));
    assert_eq!(extract(&frame, 5), vec![12191, 20284, 16052, 12171, 12191]);
}

#[test]
fn features_overwrite_the_vector_they_are_given() {
    let frame = vec![100, -100, 100, -100];
    assert_eq!(extract_into(&frame, 3, vec![7; 10]), vec![100, 150, 0]);
    assert_eq!(extract_into(&frame, 3, Vec::new()), vec![100, 150, 0]);
    assert_eq!(extract_into(&frame, 0, vec![7; 10]), Vec::<i32>::new());
}
