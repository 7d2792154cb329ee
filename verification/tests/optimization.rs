use tracker::normalized_vo::optimization::{check_lm_input, local_bundle_adjustment};
use tracker::normalized_vo::types::{Feature, KeyFrame, MapPoint, VoError};

type Kf = KeyFrame<f64, f64, f64>;

fn feature(coord: f64, mp: Option<u64>) -> Feature<f64, f64> {
    Feature { id: 0, norm_coords: coord, response: 1.0, age: 0, map_point_id: mp }
}

fn point(id: u64, pos: f64) -> MapPoint<f64> {
    MapPoint { id, position: pos, observations: vec![1] }
}

// Optimiser stand-in: the new pose is the old pose plus the sum of positions
// plus ten times the sum of observations.
fn optimize(_kf_id: u64, pose: &f64, pts: &Vec<f64>, obs: &Vec<f64>) -> Result<f64, VoError<f64>> {
    Ok(*pose + pts.iter().sum::<f64>() + 10.0 * obs.iter().sum::<f64>())
}

#[test]
fn keyframe_with_three_associations_is_optimised() {
    let mut kfs: Vec<Kf> = vec![KeyFrame {
        id: 1,
        pose: 0.5,
        features: vec![
            feature(1.0, Some(1)),
            feature(2.0, None),
            feature(3.0, Some(2)),
            feature(4.0, Some(9)),
            feature(5.0, Some(1)),
        ],
        timestamp: 0.0,
    }];
    let mut pts = vec![point(1, 100.0), point(2, 200.0), point(1, 999.0)];
    assert!(local_bundle_adjustment(&mut kfs, &mut pts, optimize).is_ok());
    // associations: (100, 1), (200, 3), (100, 5)
    assert_eq!(kfs[0].pose, 0.5 + 400.0 + 90.0);
    assert_eq!(pts.len(), 3);
}

#[test]
fn keyframe_with_two_associations_keeps_its_pose() {
    let mut kfs: Vec<Kf> = vec![KeyFrame {
        id: 1,
        pose: 0.5,
        features: vec![feature(1.0, Some(1)), feature(2.0, Some(2)), feature(3.0, Some(3))],
        timestamp: 0.0,
    }];
    let mut pts = vec![point(1, 100.0), point(2, 200.0)];
    assert!(local_bundle_adjustment(&mut kfs, &mut pts, optimize).is_ok());
    assert_eq!(kfs[0].pose, 0.5);
}

#[test]
fn failed_optimisation_keeps_the_pose() {
    let mut kfs: Vec<Kf> = vec![KeyFrame {
        id: 1,
        pose: 0.5,
        features: vec![feature(1.0, Some(1)), feature(2.0, Some(1)), feature(3.0, Some(1))],
        timestamp: 0.0,
    }];
    let mut pts = vec![point(1, 100.0)];
    let fail = |_: u64, _: &f64, _: &Vec<f64>, _: &Vec<f64>| -> Result<f64, VoError<f64>> {
        Err(VoError::OptimizationFailed)
    };
    assert!(local_bundle_adjustment(&mut kfs, &mut pts, fail).is_ok());
    assert_eq!(kfs[0].pose, 0.5);
}

#[test]
fn each_keyframe_is_adjusted_on_its_own() {
    let three = vec![feature(1.0, Some(1)), feature(1.0, Some(1)), feature(1.0, Some(1))];
    let mut kfs: Vec<Kf> = vec![
        KeyFrame { id: 1, pose: 0.0, features: three.clone(), timestamp: 1.0 },
        KeyFrame { id: 2, pose: 1.0, features: vec![], timestamp: 2.0 },
        KeyFrame { id: 3, pose: 2.0, features: three, timestamp: 3.0 },
    ];
    let mut pts = vec![point(1, 1.0)];
    assert!(local_bundle_adjustment(&mut kfs, &mut pts, optimize).is_ok());
    let poses: Vec<f64> = kfs.iter().map(|k| k.pose).collect();
    assert_eq!(poses, vec![33.0, 1.0, 35.0]);
    let ids: Vec<u64> = kfs.iter().map(|k| k.id).collect();
    assert_eq!(ids, vec![1, 2, 3]);
}

#[test]
fn no_keyframes_or_no_points_is_ok() {
    let mut kfs: Vec<Kf> = vec![];
    let mut pts = vec![point(1, 1.0)];
    assert!(local_bundle_adjustment(&mut kfs, &mut pts, optimize).is_ok());
    let mut kfs: Vec<Kf> = vec![KeyFrame {
        id: 1,
        pose: 0.5,
        features: vec![feature(1.0, Some(1)); 3],
        timestamp: 0.0,
    }];
    let mut no_pts: Vec<MapPoint<f64>> = vec![];
    assert!(local_bundle_adjustment(&mut kfs, &mut no_pts, optimize).is_ok());
    assert_eq!(kfs[0].pose, 0.5);
}

#[test]
fn keyframe_id_reaches_the_optimiser() {
    let three = vec![feature(1.0, Some(1)); 3];
    let mut kfs: Vec<Kf> = vec![
        KeyFrame { id: 7, pose: 0.0, features: three.clone(), timestamp: 1.0 },
        KeyFrame { id: 42, pose: 0.0, features: three, timestamp: 2.0 },
    ];
    let mut pts = vec![point(1, 1.0)];
    let by_id = |id: u64, pose: &f64, _: &Vec<f64>, _: &Vec<f64>| -> Result<f64, VoError<f64>> {
        if id == 42 {
            Err(VoError::OptimizationFailed)
        } else {
            Ok(*pose + id as f64)
        }
    };
    assert!(local_bundle_adjustment(&mut kfs, &mut pts, by_id).is_ok());
    assert_eq!(kfs[0].pose, 7.0);
    assert_eq!(kfs[1].pose, 0.0);
}

#[test]
fn optimiser_input_is_checked() {
    assert!(check_lm_input::<f64>(3, 3).is_ok());
    assert!(check_lm_input::<f64>(50, 50).is_ok());
    assert!(matches!(check_lm_input::<f64>(2, 2), Err(VoError::InsufficientMatches(2))));
    assert!(matches!(check_lm_input::<f64>(5, 4), Err(VoError::InsufficientMatches(5))));
    assert!(matches!(check_lm_input::<f64>(0, 0), Err(VoError::InsufficientMatches(0))));
}
