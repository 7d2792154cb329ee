//! Association of estimated trajectory samples with ground-truth samples
//! by frame index, as used for the tracking metrics, the comparison table
//! and the plots.
use vstd::prelude::*;
use std::collections::HashMap;

verus! {

broadcast use vstd::std_specs::hash::group_hash_axioms;

/// Ground-truth lookup table: each frame index maps to the position of the
/// last ground-truth record carrying it.
pub open spec fn gt_index(gt_frames: Seq<u32>) -> Map<usize, usize>
    decreases gt_frames.len(),
{
    if gt_frames.len() == 0 {
        Map::empty()
    } else {
        gt_index(gt_frames.drop_last()).insert(
            gt_frames.last() as usize,
            (gt_frames.len() - 1) as usize,
        )
    }
}

/// The pairs `(i, j)` of estimated position `i` and ground-truth position
/// `j`, for every estimated sample in order whose frame index has a
/// ground-truth record, `j` being that record's position in the table.
pub open spec fn frame_pairs(est_frames: Seq<usize>, gt_frames: Seq<u32>) -> Seq<(usize, usize)>
    decreases est_frames.len(),
{
    if est_frames.len() == 0 {
        Seq::empty()
    } else {
        let prev = frame_pairs(est_frames.drop_last(), gt_frames);
        let table = gt_index(gt_frames);
        let f = est_frames.last();
        if table.contains_key(f) {
            prev.push(((est_frames.len() - 1) as usize, table[f]))
        } else {
            prev
        }
    }
}

/// The table holds exactly the frame indices of the records, each mapped
/// to the last record carrying it.
pub proof fn lemma_gt_index(gt_frames: Seq<u32>, f: usize)
    requires
        gt_frames.len() <= usize::MAX,
    ensures
        gt_index(gt_frames).contains_key(f) <==> exists|j: int|
            0 <= j < gt_frames.len() && #[trigger] gt_frames[j] as usize == f,
        gt_index(gt_frames).contains_key(f) ==> {
            let j = gt_index(gt_frames)[f] as int;
            &&& 0 <= j < gt_frames.len()
            &&& gt_frames[j] as usize == f
            &&& forall|k: int| j < k < gt_frames.len() ==> #[trigger] gt_frames[k] as usize != f
        },
    decreases gt_frames.len(),
{
    if gt_frames.len() > 0 {
        let d = gt_frames.drop_last();
        lemma_gt_index(d, f);
        if gt_frames.last() as usize != f {
            if exists|j: int| 0 <= j < gt_frames.len() && #[trigger] gt_frames[j] as usize == f {
                let j = choose|j: int| 0 <= j < gt_frames.len() && #[trigger] gt_frames[j] as usize == f;
                assert(d[j] as usize == f);
            }
            if gt_index(d).contains_key(f) {
                let j = choose|j: int| 0 <= j < d.len() && #[trigger] d[j] as usize == f;
                assert(gt_frames[j] as usize == f);
                let jj = gt_index(d)[f] as int;
                assert(gt_index(gt_frames)[f] == gt_index(d)[f]);
                assert forall|k: int| jj < k < gt_frames.len() implies #[trigger] gt_frames[k] as usize != f by {
                    if k < d.len() {
                        assert(d[k] == gt_frames[k]);
                    }
                }
            }
        }
    }
}

/// Pairs each estimated sample with the ground-truth record of the same
/// frame index (the last such record when several share it).
pub fn match_frames(est_frames: &[usize], gt_frames: &[u32]) -> (pairs: Vec<(usize, usize)>)
    ensures
        pairs@ == frame_pairs(est_frames@, gt_frames@),
{
    let mut table: HashMap<usize, usize> = HashMap::new();
    let mut j: usize = 0;
    while j < gt_frames.len()
        invariant
            j <= gt_frames@.len(),
            table@ == gt_index(gt_frames@.take(j as int)),
        decreases gt_frames@.len() - j,
    {
        proof {
            assert(gt_frames@.take(j + 1).drop_last() =~= gt_frames@.take(j as int));
        }
        table.insert(gt_frames[j] as usize, j);
        j = j + 1;
    }
    proof {
        assert(gt_frames@.take(gt_frames@.len() as int) =~= gt_frames@);
    }
    let mut pairs: Vec<(usize, usize)> = Vec::new();
    let mut i: usize = 0;
    while i < est_frames.len()
        invariant
            i <= est_frames@.len(),
            table@ == gt_index(gt_frames@),
            pairs@ == frame_pairs(est_frames@.take(i as int), gt_frames@),
        decreases est_frames@.len() - i,
    {
        proof {
            assert(est_frames@.take(i + 1).drop_last() =~= est_frames@.take(i as int));
        }
        match table.get(&est_frames[i]) {
            Some(gj) => {
                pairs.push((i, *gj));
            },
            None => {},
        }
        i = i + 1;
    }
    proof {
        assert(est_frames@.take(est_frames@.len() as int) =~= est_frames@);
    }
    pairs
}

} // verus!

verus! {

/// Law: every pair joins an estimated sample with a ground-truth record of
/// the same frame index (the last such record), pairs follow the order of
/// the estimated samples, and every estimated sample whose frame index
/// occurs in the ground truth is paired.
pub proof fn law_frame_pairs(est_frames: Seq<usize>, gt_frames: Seq<u32>)
    requires
        est_frames.len() <= usize::MAX,
        gt_frames.len() <= usize::MAX,
    ensures
        forall|k: int|
            0 <= k < frame_pairs(est_frames, gt_frames).len() ==> {
                let (i, j) = #[trigger] frame_pairs(est_frames, gt_frames)[k];
                &&& i < est_frames.len()
                &&& j < gt_frames.len()
                &&& est_frames[i as int] == gt_frames[j as int] as usize
                &&& forall|l: int| j < l < gt_frames.len() ==> #[trigger] gt_frames[l] as usize
                    != est_frames[i as int]
            },
        forall|a: int, b: int|
            0 <= a < b < frame_pairs(est_frames, gt_frames).len() ==> frame_pairs(
                est_frames,
                gt_frames,
            )[a].0 < frame_pairs(est_frames, gt_frames)[b].0,
        forall|i: int, j: int|
            0 <= i < est_frames.len() && 0 <= j < gt_frames.len() && #[trigger] est_frames[i]
                == #[trigger] gt_frames[j] as usize ==> exists|k: int|
                0 <= k < frame_pairs(est_frames, gt_frames).len() && #[trigger] frame_pairs(
                    est_frames,
                    gt_frames,
                )[k].0 == i,
    decreases est_frames.len(),
{
    if est_frames.len() > 0 {
        let d = est_frames.drop_last();
        law_frame_pairs(d, gt_frames);
        let prev = frame_pairs(d, gt_frames);
        let cur = frame_pairs(est_frames, gt_frames);
        let f = est_frames.last();
        let last = est_frames.len() - 1;
        lemma_gt_index(gt_frames, f);
        assert forall|k: int| 0 <= k < prev.len() implies #[trigger] prev[k].0 < last by {
            let (i, j) = prev[k];
            assert(i < d.len());
        }
        assert forall|k: int| 0 <= k < prev.len() implies #[trigger] cur[k] == prev[k] by {}
        assert forall|k: int| 0 <= k < cur.len() implies {
            let (i, j) = #[trigger] cur[k];
            &&& i < est_frames.len()
            &&& j < gt_frames.len()
            &&& est_frames[i as int] == gt_frames[j as int] as usize
            &&& forall|l: int| j < l < gt_frames.len() ==> #[trigger] gt_frames[l] as usize
                != est_frames[i as int]
        } by {
            if k < prev.len() {
                let (i, j) = prev[k];
                assert(est_frames[i as int] == d[i as int]);
            }
        }
        assert forall|a: int, b: int| 0 <= a < b < cur.len() implies cur[a].0 < cur[b].0 by {
            if b < prev.len() {
            } else {
                assert(cur[a] == prev[a]);
            }
        }
        assert forall|i: int, j: int|
            0 <= i < est_frames.len() && 0 <= j < gt_frames.len() && #[trigger] est_frames[i]
                == #[trigger] gt_frames[j] as usize implies exists|k: int|
            0 <= k < cur.len() && #[trigger] cur[k].0 == i by {
            if i < last {
                assert(d[i] == est_frames[i]);
                let k = choose|k: int| 0 <= k < prev.len() && #[trigger] prev[k].0 == i;
                assert(cur[k] == prev[k]);
            } else {
                assert(gt_frames[j] as usize == f);
                assert(cur[prev.len() as int].0 == i);
            }
        }
    }
}

} // verus!
