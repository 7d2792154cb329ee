use tracker::height::{enough_inliers, enough_points, MIN_INLIERS};

#[test]
fn homography_needs_four_points_in_each_frame() {
    assert!(enough_points(4, 4));
    assert!(enough_points(100, 4));
    assert!(!enough_points(3, 100));
    assert!(!enough_points(100, 3));
}

#[test]
fn scale_is_trusted_from_thirty_inliers() {
    assert_eq!(MIN_INLIERS, 30);
    assert!(!enough_inliers(29));
    assert!(enough_inliers(30));
    assert!(!enough_inliers(0));
}
