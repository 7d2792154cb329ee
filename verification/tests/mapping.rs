use nalgebra::{Matrix3, Vector3};
use tracker::normalized_vo::mapping::{add_observation, should_be_keyframe, VoMap};
use tracker::normalized_vo::types::{Feature, KeyFrame};

type Pose = (Matrix3<f64>, Vector3<f64>);
type TestMap = VoMap<Pose, (f64, f64), f64, Vector3<f64>>;

fn identity_pose() -> Pose {
    (Matrix3::identity(), Vector3::new(0.0, 0.0, 1.0))
}

fn keyframe(id: u64) -> KeyFrame<Pose, (f64, f64), f64> {
    KeyFrame { id, pose: identity_pose(), features: Vec::new(), timestamp: 0.0 }
}

#[test]
fn test_map_operations() {
    let mut map = TestMap::new();

    let kf = KeyFrame {
        id: 0,
        pose: identity_pose(),
        features: Vec::new(),
        timestamp: 0.0,
    };

    let kf_id = map.add_keyframe(kf);
    assert_eq!(kf_id, 1);

    let mp_id = map.create_map_point(Vector3::new(1.0, 0.0, 5.0), kf_id);
    assert_eq!(mp_id, 1);

    let pt = map.get_point(mp_id);
    assert!(pt.is_some());
    assert_eq!(pt.unwrap().observations.len(), 1);
}

#[test]
fn keyframe_ids_are_assigned_in_sequence() {
    let mut map = TestMap::new();
    assert_eq!(map.next_ids(), (1, 1));
    assert_eq!(map.add_keyframe(keyframe(77)), 1);
    assert_eq!(map.add_keyframe(keyframe(0)), 2);
    assert_eq!(map.add_keyframe(keyframe(5)), 3);
    let ids: Vec<u64> = map.keyframes.iter().map(|k| k.id).collect();
    assert_eq!(ids, vec![1, 2, 3]);
    assert_eq!(map.next_ids(), (1, 4));
}

#[test]
fn created_point_is_found_by_its_id() {
    let mut map = TestMap::new();
    let a = map.create_map_point(Vector3::new(0.0, 0.0, 1.0), 4);
    let b = map.create_map_point(Vector3::new(2.0, 1.0, 3.0), 9);
    assert_eq!((a, b), (1, 2));
    let p = map.get_point(b).unwrap();
    assert_eq!(p.id, 2);
    assert_eq!(p.position, Vector3::new(2.0, 1.0, 3.0));
    assert_eq!(p.observations, vec![9]);
    assert!(map.get_point(3).is_none());
}

#[test]
fn get_point_returns_first_point_with_id() {
    let mut map = TestMap::new();
    map.create_map_point(Vector3::new(1.0, 1.0, 1.0), 1);
    let mut dup = map.points[0].clone();
    dup.position = Vector3::new(9.0, 9.0, 9.0);
    map.points.push(dup);
    assert_eq!(map.get_point(1).unwrap().position, Vector3::new(1.0, 1.0, 1.0));
}

#[test]
fn get_point_mut_edits_the_point() {
    let mut map = TestMap::new();
    map.create_map_point(Vector3::new(1.0, 1.0, 1.0), 1);
    map.create_map_point(Vector3::new(2.0, 2.0, 2.0), 1);
    map.get_point_mut(2).unwrap().observations.push(8);
    assert_eq!(map.points[1].observations, vec![1, 8]);
    assert_eq!(map.points[0].observations, vec![1]);
    assert!(map.get_point_mut(7).is_none());
}

#[test]
fn last_keyframes_and_last_keyframe() {
    let mut map = TestMap::new();
    assert!(map.last_keyframe().is_none());
    assert_eq!(map.last_keyframes(3).len(), 0);
    for _ in 0..5 {
        map.add_keyframe(keyframe(0));
    }
    let ids: Vec<u64> = map.last_keyframes(2).iter().map(|k| k.id).collect();
    assert_eq!(ids, vec![4, 5]);
    assert_eq!(map.last_keyframes(10).len(), 5);
    assert_eq!(map.last_keyframes(0).len(), 0);
    assert_eq!(map.last_keyframe().unwrap().id, 5);
}

#[test]
fn filter_points_by_observations_keeps_order() {
    let mut map = TestMap::new();
    for i in 0..5u64 {
        map.create_map_point(Vector3::new(i as f64, 0.0, 1.0), 1);
    }
    add_observation(&mut map, 2, 2);
    add_observation(&mut map, 4, 2);
    add_observation(&mut map, 4, 3);
    map.filter_points_by_observations(2);
    let ids: Vec<u64> = map.points.iter().map(|p| p.id).collect();
    assert_eq!(ids, vec![2, 4]);
    map.filter_points_by_observations(2);
    assert_eq!(map.points.len(), 2);
    map.filter_points_by_observations(3);
    let ids: Vec<u64> = map.points.iter().map(|p| p.id).collect();
    assert_eq!(ids, vec![4]);
    map.filter_points_by_observations(0);
    assert_eq!(map.points.len(), 1);
    // ids keep coming from the counter after filtering
    assert_eq!(map.create_map_point(Vector3::new(0.0, 0.0, 1.0), 1), 6);
}

#[test]
fn add_observation_is_idempotent() {
    let mut map = TestMap::new();
    map.create_map_point(Vector3::new(0.0, 0.0, 1.0), 1);
    add_observation(&mut map, 1, 5);
    assert_eq!(map.points[0].observations, vec![1, 5]);
    add_observation(&mut map, 1, 5);
    assert_eq!(map.points[0].observations, vec![1, 5]);
    add_observation(&mut map, 1, 1);
    assert_eq!(map.points[0].observations, vec![1, 5]);
    // unknown point: nothing changes
    add_observation(&mut map, 42, 7);
    assert_eq!(map.points.len(), 1);
    assert_eq!(map.points[0].observations, vec![1, 5]);
}

#[test]
fn add_keyframe_keeps_its_contents() {
    let mut map = TestMap::new();
    let feature = Feature { id: 3, norm_coords: (0.5, -0.5), response: 2.0, age: 1, map_point_id: Some(7) };
    let kf = KeyFrame { id: 99, pose: identity_pose(), features: vec![feature], timestamp: 4.5 };
    let id = map.add_keyframe(kf);
    let stored = map.last_keyframe().unwrap();
    assert_eq!(stored.id, id);
    assert_eq!(stored.timestamp, 4.5);
    assert_eq!(stored.features.len(), 1);
    assert_eq!(stored.features[0].map_point_id, Some(7));
    assert_eq!(stored.pose, identity_pose());
}

#[test]
fn keyframe_decision() {
    // first frame, or every track lost
    assert!(should_be_keyframe(true, 10, 10, false));
    assert!(should_be_keyframe(false, 10, 0, false));
    assert!(should_be_keyframe(false, 0, 0, false));
    // enough motion
    assert!(should_be_keyframe(false, 10, 9, true));
    // more than half the tracks lost: 6 of 10 lost, but not 5 of 10
    assert!(should_be_keyframe(false, 10, 4, false));
    assert!(!should_be_keyframe(false, 10, 5, false));
    // 3 of 5 lost is more than 5 / 2 == 2
    assert!(should_be_keyframe(false, 5, 2, false));
    assert!(!should_be_keyframe(false, 5, 3, false));
}
