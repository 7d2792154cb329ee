//! Records of the normalised visual odometry. Geometry (coordinates, poses,
//! detector responses, timestamps) is carried as type parameters: the
//! logic here only reads identifiers, ages and associations.
use vstd::prelude::*;

verus! {

/// A feature observed in an image. `C` holds its normalised coordinates,
/// `F` its detector response.
#[derive(Clone, Debug)]
pub struct Feature<C, F> {
    pub id: u64,
    pub norm_coords: C,
    pub response: F,
    /// Number of frames the track has lived for.
    pub age: u32,
    /// The map point this feature is associated with, if any.
    pub map_point_id: Option<u64>,
}

/// A map point: a position `X` in normalised space and the keyframes that
/// observe it.
#[verifier::reject_recursive_types(X)]
#[derive(Clone, Debug)]
pub struct MapPoint<X> {
    pub id: u64,
    pub position: X,
    pub observations: Vec<u64>,
}

/// A keyframe: its pose `P`, its features and its timestamp (of type `F`,
/// the scalar type the features' responses use too).
#[verifier::reject_recursive_types(C)]
#[verifier::reject_recursive_types(F)]
#[derive(Clone, Debug)]
pub struct KeyFrame<P, C, F> {
    pub id: u64,
    pub pose: P,
    pub features: Vec<Feature<C, F>>,
    pub timestamp: F,
}

/// Errors of the odometry pipeline. `F` is the scalar that reports how far
/// a rotation's determinant strayed from one.
#[derive(Debug)]
pub enum VoError<F> {
    /// Frames with zero or almost zero motion (degenerate essential matrix).
    DegenerateMotion,
    /// Fewer matched points than required.
    InsufficientMatches(usize),
    /// The determinant of the rotation deviated from one by the given amount.
    RotationNotInSO3(F),
    /// The translation vector has zero length after normalisation.
    ZeroTranslation,
    /// Radial distortion moved coordinates outside the plausible range.
    UndistortionOutOfBounds,
    /// The optimiser did not converge.
    OptimizationFailed,
}

} // verus!
