//! Pairing of matched keypoints for global motion compensation: a match
//! names a keypoint of the previous frame (query) and one of the current
//! frame (train); the pair of their image points is looked up by index.
use vstd::prelude::*;

verus! {

/// The indices a descriptor match carries: `query_idx` into the previous
/// frame's keypoints, `train_idx` into the current frame's keypoints.
#[derive(Clone, Copy, Debug, PartialEq, Eq, Structural)]
pub struct MatchIndices {
    pub query_idx: i32,
    pub train_idx: i32,
}

/// A match named a keypoint that does not exist.
#[derive(Clone, Copy, Debug, PartialEq, Eq, Structural)]
pub enum KeypointLookupError {
    /// The query index does not name a keypoint of the previous frame.
    PrevKeypoint(i32),
    /// The train index does not name a keypoint of the current frame.
    CurrKeypoint(i32),
}

/// `idx` names an element of a sequence of length `len`.
pub open spec fn in_bounds(idx: i32, len: int) -> bool {
    0 <= idx < len
}

/// Both indices of `m` name existing keypoints.
pub open spec fn match_ok(m: MatchIndices, n_prev: int, n_curr: int) -> bool {
    in_bounds(m.query_idx, n_prev) && in_bounds(m.train_idx, n_curr)
}

/// What looking up `matches` in order gives: the point pairs when every
/// index exists, otherwise the error of the first match that fails, the
/// previous frame's index being checked before the current frame's.
pub open spec fn lookup_result<T>(prev: Seq<T>, curr: Seq<T>, matches: Seq<MatchIndices>) -> Result<
    (Seq<T>, Seq<T>),
    KeypointLookupError,
>
    decreases matches.len(),
{
    if matches.len() == 0 {
        Ok((Seq::empty(), Seq::empty()))
    } else {
        match lookup_result(prev, curr, matches.drop_last()) {
            Err(e) => Err(e),
            Ok((ps, cs)) => {
                let m = matches.last();
                if !in_bounds(m.query_idx, prev.len() as int) {
                    Err(KeypointLookupError::PrevKeypoint(m.query_idx))
                } else if !in_bounds(m.train_idx, curr.len() as int) {
                    Err(KeypointLookupError::CurrKeypoint(m.train_idx))
                } else {
                    Ok((ps.push(prev[m.query_idx as int]), cs.push(curr[m.train_idx as int])))
                }
            },
        }
    }
}

/// Collects, for each match in order, the previous frame's point named by
/// its query index and the current frame's point named by its train index.
pub fn extract_points<T: Copy>(curr_kp: &[T], prev_kp: &[T], matches: &[MatchIndices]) -> (r: Result<
    (Vec<T>, Vec<T>),
    KeypointLookupError,
>)
    ensures
        match (r, lookup_result(prev_kp@, curr_kp@, matches@)) {
            (Ok((p, c)), Ok((ps, cs))) => p@ == ps && c@ == cs,
            (Err(e), Err(es)) => e == es,
            _ => false,
        },
{
    let mut prev_points: Vec<T> = Vec::with_capacity(matches.len());
    let mut curr_points: Vec<T> = Vec::with_capacity(matches.len());
    let mut i: usize = 0;
    while i < matches.len()
        invariant
            i <= matches@.len(),
            lookup_result(prev_kp@, curr_kp@, matches@.take(i as int)) == Ok::<
                (Seq<T>, Seq<T>),
                KeypointLookupError,
            >((prev_points@, curr_points@)),
        decreases matches@.len() - i,
    {
        let m = matches[i];
        proof {
            assert(matches@.take(i + 1).drop_last() =~= matches@.take(i as int));
            assert(matches@.take(i + 1).last() == m);
        }
        if m.query_idx < 0 || m.query_idx as usize >= prev_kp.len() {
            proof {
                lemma_lookup_err_persists(prev_kp@, curr_kp@, matches@, i as int + 1);
            }
            return Err(KeypointLookupError::PrevKeypoint(m.query_idx));
        }
        if m.train_idx < 0 || m.train_idx as usize >= curr_kp.len() {
            proof {
                lemma_lookup_err_persists(prev_kp@, curr_kp@, matches@, i as int + 1);
            }
            return Err(KeypointLookupError::CurrKeypoint(m.train_idx));
        }
        prev_points.push(prev_kp[m.query_idx as usize]);
        curr_points.push(curr_kp[m.train_idx as usize]);
        i = i + 1;
    }
    proof {
        assert(matches@.take(matches@.len() as int) =~= matches@);
    }
    Ok((prev_points, curr_points))
}

/// Once a prefix of the matches fails, every longer prefix fails the same way.
proof fn lemma_lookup_err_persists<T>(prev: Seq<T>, curr: Seq<T>, matches: Seq<MatchIndices>, k: int)
    requires
        0 <= k <= matches.len(),
        lookup_result(prev, curr, matches.take(k)) is Err,
    ensures
        lookup_result(prev, curr, matches) == lookup_result(prev, curr, matches.take(k)),
    decreases matches.len() - k,
{
    if k < matches.len() {
        assert(matches.take(k + 1).drop_last() =~= matches.take(k));
        lemma_lookup_err_persists(prev, curr, matches, k + 1);
    } else {
        assert(matches.take(k) =~= matches);
    }
}

} // verus!

verus! {

/// Law: a successful lookup yields one previous point and one current point
/// per match, each the point its match names.
pub proof fn law_lookup_pairs<T>(prev: Seq<T>, curr: Seq<T>, matches: Seq<MatchIndices>)
    ensures
        lookup_result(prev, curr, matches) is Ok <==> forall|k: int|
            0 <= k < matches.len() ==> match_ok(#[trigger] matches[k], prev.len() as int, curr.len() as int),
        match lookup_result(prev, curr, matches) {
            Ok((ps, cs)) => {
                &&& ps.len() == matches.len()
                &&& cs.len() == matches.len()
                &&& forall|k: int|
                    0 <= k < matches.len() ==> #[trigger] ps[k] == prev[matches[k].query_idx as int]
                        && cs[k] == curr[matches[k].train_idx as int]
            },
            Err(_) => true,
        },
    decreases matches.len(),
{
    if matches.len() > 0 {
        let d = matches.drop_last();
        law_lookup_pairs(prev, curr, d);
        assert forall|k: int| 0 <= k < d.len() implies #[trigger] d[k] == matches[k] by {}
        let np = prev.len() as int;
        let nc = curr.len() as int;
        if lookup_result(prev, curr, d) is Err {
            if forall|k: int| 0 <= k < matches.len() ==> match_ok(#[trigger] matches[k], np, nc) {
                assert forall|k: int| 0 <= k < d.len() implies match_ok(#[trigger] d[k], np, nc) by {
                    assert(matches[k] == d[k]);
                }
            }
        } else {
            let m = matches.last();
            if match_ok(m, np, nc) {
                assert forall|k: int| 0 <= k < matches.len() implies match_ok(#[trigger] matches[k], np, nc) by {
                    if k < d.len() {
                        assert(matches[k] == d[k]);
                    }
                }
            } else {
                assert(!match_ok(matches[matches.len() - 1], np, nc));
            }
        }
    }
}

} // verus!
