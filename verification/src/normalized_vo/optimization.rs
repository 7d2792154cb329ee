//! Local bundle adjustment: each keyframe's pose is re-estimated from the
//! map points its features are associated with.
use vstd::prelude::*;
use crate::normalized_vo::types::{Feature, KeyFrame, MapPoint, VoError};
use crate::normalized_vo::mapping::{find_point_in, lemma_point_index, point_index};

verus! {

/// Fewest associated points for which a keyframe's pose is optimised.
pub const MIN_BA_POINTS: usize = 3;
/// Fewest point/observation pairs the pose optimiser accepts.
pub const MIN_LM_POINTS: usize = 3;

/// Checks the input of the pose optimiser: as many observations as world
/// points, and at least `MIN_LM_POINTS` of them; otherwise the number of
/// world points is reported as too few matches.
pub fn check_lm_input<F>(n_points: usize, n_obs: usize) -> (r: Result<(), VoError<F>>)
    ensures
        match r {
            Ok(()) => n_points == n_obs && n_points >= MIN_LM_POINTS,
            Err(e) => {
                &&& !(n_points == n_obs && n_points >= MIN_LM_POINTS)
                &&& e matches VoError::InsufficientMatches(m) && m == n_points
            },
        },
{
    if n_points != n_obs || n_points < MIN_LM_POINTS {
        Err(VoError::InsufficientMatches(n_points))
    } else {
        Ok(())
    }
}

/// The (map point position, observed coordinates) pairs of a keyframe: for
/// each feature in order that names a map point present in `points`, the
/// position of the first point with that id and the feature's coordinates.
pub open spec fn associations<C, F, X>(features: Seq<Feature<C, F>>, points: Seq<MapPoint<X>>) -> Seq<
    (X, C),
>
    decreases features.len(),
{
    if features.len() == 0 {
        Seq::empty()
    } else {
        let prev = associations(features.drop_last(), points);
        let f = features.last();
        match f.map_point_id {
            Some(id) => match point_index(points, id) {
                Some(i) => prev.push((points[i].position, f.norm_coords)),
                None => prev,
            },
            None => prev,
        }
    }
}

/// The pose a keyframe ends with: unchanged when fewer than
/// `MIN_BA_POINTS` associations exist; otherwise what the optimiser returned
/// for the keyframe's id, its current pose and the associated positions and
/// observations, or the current pose when the optimiser failed.
pub open spec fn pose_after_adjustment<P, C, F, X, Opt>(
    optimize: Opt,
    kf: KeyFrame<P, C, F>,
    points: Seq<MapPoint<X>>,
    pose: P,
) -> bool where Opt: Fn(u64, &P, &Vec<X>, &Vec<C>) -> Result<P, VoError<F>> {
    let assoc = associations(kf.features@, points);
    if assoc.len() < MIN_BA_POINTS {
        pose == kf.pose
    } else {
        exists|xs: Vec<X>, cs: Vec<C>, res: Result<P, VoError<F>>|
            {
                &&& xs@ == assoc.map_values(|e: (X, C)| e.0)
                &&& cs@ == assoc.map_values(|e: (X, C)| e.1)
                &&& #[trigger] call_ensures(optimize, (kf.id, &kf.pose, &xs, &cs), res)
                &&& pose == match res {
                    Ok(p) => p,
                    Err(_) => kf.pose,
                }
            }
    }
}

/// Re-estimates the pose of every keyframe from the map points its features
/// are associated with, using `optimize` (which takes the keyframe's id, its
/// current pose, the point positions and the observed coordinates). A keyframe with fewer than
/// `MIN_BA_POINTS` associations, or whose optimisation fails, keeps its pose.
pub fn local_bundle_adjustment<P, C: Copy, F, X: Copy, Opt>(
    keyframes: &mut Vec<KeyFrame<P, C, F>>,
    map_points: &mut Vec<MapPoint<X>>,
    optimize: Opt,
) -> (r: Result<(), VoError<F>>) where Opt: Fn(u64, &P, &Vec<X>, &Vec<C>) -> Result<P, VoError<F>>
    requires
        forall|id: u64, p: &P, xs: &Vec<X>, cs: &Vec<C>| #[trigger] call_requires(optimize, (id, p, xs, cs)),
    ensures
        r is Ok,
        final(map_points)@ == old(map_points)@,
        final(keyframes)@.len() == old(keyframes)@.len(),
        forall|i: int|
            0 <= i < old(keyframes)@.len() ==> {
                let k = old(keyframes)@[i];
                let k2 = #[trigger] final(keyframes)@[i];
                &&& k2.id == k.id
                &&& k2.features == k.features
                &&& k2.timestamp == k.timestamp
                &&& pose_after_adjustment(optimize, k, old(map_points)@, k2.pose)
            },
{
    if keyframes.len() == 0 || map_points.len() == 0 {
        proof {
            assert forall|i: int| 0 <= i < old(keyframes)@.len() implies pose_after_adjustment(
                optimize,
                old(keyframes)@[i],
                old(map_points)@,
                final(keyframes)@[i].pose,
            ) by {
                lemma_no_points_no_associations(old(keyframes)@[i].features@, old(map_points)@);
            }
        }
        return Ok(());
    }
    let ghost orig = keyframes@;
    let n = keyframes.len();
    let mut kf_idx: usize = 0;
    while kf_idx < n
        invariant
            n == orig.len(),
            kf_idx <= n,
            keyframes@.len() == n,
            forall|id: u64, p: &P, xs: &Vec<X>, cs: &Vec<C>| #[trigger] call_requires(optimize, (id, p, xs, cs)),
            forall|i: int| kf_idx <= i < n ==> #[trigger] keyframes@[i] == orig[i],
            forall|i: int|
                0 <= i < kf_idx ==> {
                    let k = orig[i];
                    let k2 = #[trigger] keyframes@[i];
                    &&& k2.id == k.id
                    &&& k2.features == k.features
                    &&& k2.timestamp == k.timestamp
                    &&& pose_after_adjustment(optimize, k, map_points@, k2.pose)
                },
        decreases n - kf_idx,
    {
        let mut local_points: Vec<X> = Vec::new();
        let mut local_obs: Vec<C> = Vec::new();
        let ghost feats = keyframes@[kf_idx as int].features@;
        let nf = keyframes[kf_idx].features.len();
        let mut fi: usize = 0;
        while fi < nf
            invariant
                fi <= nf,
                nf == feats.len(),
                kf_idx < keyframes@.len(),
                feats == keyframes@[kf_idx as int].features@,
                local_points@ == associations(feats.take(fi as int), map_points@).map_values(
                    |e: (X, C)| e.0,
                ),
                local_obs@ == associations(feats.take(fi as int), map_points@).map_values(
                    |e: (X, C)| e.1,
                ),
            decreases nf - fi,
        {
            proof {
                assert(feats.take(fi + 1).drop_last() =~= feats.take(fi as int));
                assert(feats.take(fi + 1).last() == feats[fi as int]);
            }
            match keyframes[kf_idx].features[fi].map_point_id {
                Some(mp_id) => {
                    match find_point_in(map_points, mp_id) {
                        Some(pi) => {
                            local_points.push(map_points[pi].position);
                            local_obs.push(keyframes[kf_idx].features[fi].norm_coords);
                            proof {
                                let a = associations(feats.take(fi as int), map_points@);
                                let a2 = associations(feats.take(fi + 1), map_points@);
                                assert(a2 == a.push((map_points@[pi as int].position, feats[fi as int].norm_coords)));
                                assert(local_points@ =~= a2.map_values(|e: (X, C)| e.0));
                                assert(local_obs@ =~= a2.map_values(|e: (X, C)| e.1));
                            }
                        },
                        None => {},
                    }
                },
                None => {},
            }
            fi = fi + 1;
        }
        proof {
            assert(feats.take(nf as int) =~= feats);
        }
        if local_points.len() >= MIN_BA_POINTS {
            let res = optimize(keyframes[kf_idx].id, &keyframes[kf_idx].pose, &local_points, &local_obs);
            match res {
                Ok(new_pose) => {
                    let kf = &mut keyframes[kf_idx];
                    kf.pose = new_pose;
                },
                Err(_) => {},
            }
        }
        kf_idx = kf_idx + 1;
    }
    Ok(())
}

/// Without map points no feature is associated with anything.
proof fn lemma_no_points_no_associations<C, F, X>(features: Seq<Feature<C, F>>, points: Seq<MapPoint<X>>)
    requires
        points.len() == 0,
    ensures
        associations(features, points).len() == 0,
    decreases features.len(),
{
    if features.len() > 0 {
        lemma_no_points_no_associations(features.drop_last(), points);
    }
}


/// The associations of a keyframe, told feature by feature: `idx` lists, in
/// increasing order, the features whose map point exists, and `pidx` the
/// first point with that feature's map point id; the `k`-th association is
/// that point's position with that feature's coordinates.
proof fn lemma_associations_by_feature<C, F, X>(
    features: Seq<Feature<C, F>>,
    points: Seq<MapPoint<X>>,
) -> (r: (Seq<int>, Seq<int>))
    ensures
        r.0.len() == associations(features, points).len(),
        r.1.len() == r.0.len(),
        forall|a: int, b: int| 0 <= a < b < r.0.len() ==> r.0[a] < r.0[b],
        forall|k: int|
            0 <= k < r.0.len() ==> {
                &&& 0 <= #[trigger] r.0[k] < features.len()
                &&& 0 <= r.1[k] < points.len()
                &&& features[r.0[k]].map_point_id == Some(points[r.1[k]].id)
                &&& forall|l: int| 0 <= l < r.1[k] ==> #[trigger] points[l].id != points[r.1[k]].id
                &&& associations(features, points)[k] == (
                    points[r.1[k]].position,
                    features[r.0[k]].norm_coords,
                )
            },
        forall|f: int, j: int|
            0 <= f < features.len() && 0 <= j < points.len() && #[trigger] features[f].map_point_id
                == Some(#[trigger] points[j].id) ==> exists|k: int| 0 <= k < r.0.len() && r.0[k] == f,
    decreases features.len(),
{
    if features.len() == 0 {
        (Seq::empty(), Seq::empty())
    } else {
        let d = features.drop_last();
        let (i0, p0) = lemma_associations_by_feature(d, points);
        let last = features.len() - 1;
        let f = features.last();
        assert forall|q: int| 0 <= q < d.len() implies #[trigger] d[q] == features[q] by {}
        let prev = associations(d, points);
        let mut found = false;
        let mut jj: int = 0;
        match f.map_point_id {
            Some(id) => {
                lemma_point_index(points, id);
                match point_index(points, id) {
                    Some(j) => {
                        found = true;
                        jj = j;
                    },
                    None => {},
                }
            },
            None => {},
        }
        if found {
            let idx = i0.push(last);
            let pidx = p0.push(jj);
            assert(associations(features, points) == prev.push((points[jj].position, f.norm_coords)));
            assert forall|k: int| 0 <= k < idx.len() implies {
                &&& 0 <= #[trigger] idx[k] < features.len()
                &&& 0 <= pidx[k] < points.len()
                &&& features[idx[k]].map_point_id == Some(points[pidx[k]].id)
                &&& forall|l: int| 0 <= l < pidx[k] ==> #[trigger] points[l].id != points[pidx[k]].id
                &&& associations(features, points)[k] == (
                    points[pidx[k]].position,
                    features[idx[k]].norm_coords,
                )
            } by {
                if k < i0.len() {
                    assert(idx[k] == i0[k]);
                    assert(pidx[k] == p0[k]);
                    assert(d[i0[k]] == features[i0[k]]);
                }
            }
            assert forall|q: int, j: int|
                0 <= q < features.len() && 0 <= j < points.len() && #[trigger] features[q].map_point_id
                    == Some(#[trigger] points[j].id) implies exists|k: int| 0 <= k < idx.len() && idx[k] == q by {
                if q == last {
                    assert(idx[i0.len() as int] == q);
                } else {
                    assert(d[q].map_point_id == Some(points[j].id));
                    let k = choose|k: int| 0 <= k < i0.len() && i0[k] == q;
                    assert(idx[k] == q);
                }
            }
            (idx, pidx)
        } else {
            assert(associations(features, points) == prev);
            assert forall|k: int| 0 <= k < i0.len() implies {
                &&& 0 <= #[trigger] i0[k] < features.len()
                &&& 0 <= p0[k] < points.len()
                &&& features[i0[k]].map_point_id == Some(points[p0[k]].id)
                &&& forall|l: int| 0 <= l < p0[k] ==> #[trigger] points[l].id != points[p0[k]].id
                &&& associations(features, points)[k] == (
                    points[p0[k]].position,
                    features[i0[k]].norm_coords,
                )
            } by {
                assert(d[i0[k]] == features[i0[k]]);
            }
            assert forall|q: int, j: int|
                0 <= q < features.len() && 0 <= j < points.len() && #[trigger] features[q].map_point_id
                    == Some(#[trigger] points[j].id) implies exists|k: int| 0 <= k < i0.len() && i0[k] == q by {
                if q == last {
                    assert(points[j].id != points[j].id);
                } else {
                    assert(d[q].map_point_id == Some(points[j].id));
                }
            }
            (i0, p0)
        }
    }
}

/// Law: bundle adjustment fits each keyframe's pose to correspondences that
/// come from its own features. `idx` lists, in order, the features whose map
/// point exists and `pidx` the first point with each one's map point id.
/// With fewer than `MIN_BA_POINTS` of them the pose is kept. Otherwise the
/// optimiser was called with the keyframe's id and pose, positions whose
/// `k`-th entry is the position of point `pidx[k]` and observations whose
/// `k`-th entry is the coordinates of feature `idx[k]`, the same feature; the
/// pose is what it returned, or the old pose when it failed.
pub proof fn law_adjustment_pairs_points_with_their_features<P, C, F, X, Opt>(
    optimize: Opt,
    kf: KeyFrame<P, C, F>,
    points: Seq<MapPoint<X>>,
    pose: P,
) -> (r: (Seq<int>, Seq<int>)) where Opt: Fn(u64, &P, &Vec<X>, &Vec<C>) -> Result<P, VoError<F>>
    requires
        pose_after_adjustment(optimize, kf, points, pose),
    ensures
        r.1.len() == r.0.len(),
        forall|a: int, b: int| 0 <= a < b < r.0.len() ==> r.0[a] < r.0[b],
        forall|k: int|
            0 <= k < r.0.len() ==> {
                &&& 0 <= #[trigger] r.0[k] < kf.features@.len()
                &&& 0 <= r.1[k] < points.len()
                &&& kf.features@[r.0[k]].map_point_id == Some(points[r.1[k]].id)
                &&& forall|l: int| 0 <= l < r.1[k] ==> #[trigger] points[l].id != points[r.1[k]].id
            },
        forall|f: int, j: int|
            0 <= f < kf.features@.len() && 0 <= j < points.len() && #[trigger] kf.features@[f].map_point_id
                == Some(#[trigger] points[j].id) ==> exists|k: int| 0 <= k < r.0.len() && r.0[k] == f,
        r.0.len() < MIN_BA_POINTS ==> pose == kf.pose,
        r.0.len() >= MIN_BA_POINTS ==> exists|xs: Vec<X>, cs: Vec<C>, res: Result<P, VoError<F>>|
            {
                &&& xs@.len() == r.0.len()
                &&& cs@.len() == r.0.len()
                &&& forall|k: int|
                    0 <= k < r.0.len() ==> #[trigger] xs@[k] == points[r.1[k]].position && cs@[k]
                        == kf.features@[r.0[k]].norm_coords
                &&& #[trigger] call_ensures(optimize, (kf.id, &kf.pose, &xs, &cs), res)
                &&& pose == match res {
                    Ok(p) => p,
                    Err(_) => kf.pose,
                }
            },
{
    let r = lemma_associations_by_feature(kf.features@, points);
    let assoc = associations(kf.features@, points);
    if r.0.len() >= MIN_BA_POINTS {
        let (xs, cs, res) = choose|xs: Vec<X>, cs: Vec<C>, res: Result<P, VoError<F>>|
            {
                &&& xs@ == assoc.map_values(|e: (X, C)| e.0)
                &&& cs@ == assoc.map_values(|e: (X, C)| e.1)
                &&& #[trigger] call_ensures(optimize, (kf.id, &kf.pose, &xs, &cs), res)
                &&& pose == match res {
                    Ok(p) => p,
                    Err(_) => kf.pose,
                }
            };
        assert forall|k: int| 0 <= k < r.0.len() implies #[trigger] xs@[k] == points[r.1[k]].position
            && cs@[k] == kf.features@[r.0[k]].norm_coords by {
            assert(assoc[k] == (points[r.1[k]].position, kf.features@[r.0[k]].norm_coords));
        }
    }
    r
}

} // verus!
