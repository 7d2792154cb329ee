//! Discrete core of a drone trajectory tracker: bookkeeping of the
//! visual-odometry map, the sampling and input checks of RANSAC, the FAST
//! corner arc test, keypoint pairing, the gates of height estimation, the
//! association of estimated frames with ground-truth frames, and the reading
//! of the calibration and ground-truth text files.
pub mod normalized_vo;
pub mod gmc;
pub mod height;
pub mod trajectory;
pub mod text;
pub mod input;
