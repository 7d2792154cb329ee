//! The gates of height estimation from ground-plane homographies: how many
//! matched points a homography is fitted to, and how many of them must agree
//! with it for the scale it gives to be trusted.
use vstd::prelude::*;

verus! {

/// Fewest matched points in each frame for a homography to be fitted.
pub const MIN_HOMOGRAPHY_POINTS: usize = 4;
/// Fewest RANSAC inliers for a homography's scale to be trusted.
pub const MIN_INLIERS: usize = 30;

/// Whether both frames hold enough matched points to fit a homography.
pub fn enough_points(prev_points: usize, curr_points: usize) -> (r: bool)
    ensures
        r == (prev_points >= MIN_HOMOGRAPHY_POINTS && curr_points >= MIN_HOMOGRAPHY_POINTS),
{
    prev_points >= MIN_HOMOGRAPHY_POINTS && curr_points >= MIN_HOMOGRAPHY_POINTS
}

/// Whether a homography with `inliers` RANSAC inliers is reliable enough for
/// its scale to be used; below `MIN_INLIERS` the previous scale is kept.
pub fn enough_inliers(inliers: usize) -> (r: bool)
    ensures
        r == (inliers >= MIN_INLIERS),
{
    inliers >= MIN_INLIERS
}

} // verus!
