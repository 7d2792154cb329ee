//! The map of the normalised visual odometry: keyframes and map points,
//! each with an identifier handed out by the map.
use vstd::prelude::*;
use crate::normalized_vo::types::{KeyFrame, MapPoint};

verus! {

/// Index of the first point in `points` whose id is `id`.
pub open spec fn point_index<X>(points: Seq<MapPoint<X>>, id: u64) -> Option<int>
    decreases points.len(),
{
    if points.len() == 0 {
        None
    } else if points[0].id == id {
        Some(0)
    } else {
        match point_index(points.drop_first(), id) {
            Some(i) => Some(i + 1),
            None => None,
        }
    }
}

/// `point_index` finds the first matching point, and only when one exists.
pub proof fn lemma_point_index<X>(points: Seq<MapPoint<X>>, id: u64)
    ensures
        match point_index(points, id) {
            Some(i) => 0 <= i < points.len() && points[i].id == id && forall|k: int|
                0 <= k < i ==> #[trigger] points[k].id != id,
            None => forall|k: int| 0 <= k < points.len() ==> #[trigger] points[k].id != id,
        },
    decreases points.len(),
{
    if points.len() > 0 {
        lemma_point_index(points.drop_first(), id);
        assert forall|k: int| 1 <= k < points.len() implies #[trigger] points[k].id
            == points.drop_first()[k - 1].id by {}
    }
}

/// The ids of `ids` are strictly increasing and all below `next`.
pub open spec fn ids_fresh_below(ids: Seq<u64>, next: u64) -> bool {
    &&& forall|i: int| 0 <= i < ids.len() ==> #[trigger] ids[i] < next
    &&& forall|i: int, k: int| 0 <= i < k < ids.len() ==> ids[i] < ids[k]
}

/// The ids of the map's points.
pub open spec fn point_ids<X>(points: Seq<MapPoint<X>>) -> Seq<u64> {
    points.map_values(|p: MapPoint<X>| p.id)
}

/// The ids of the map's keyframes.
pub open spec fn keyframe_ids<P, C, F>(kfs: Seq<KeyFrame<P, C, F>>) -> Seq<u64> {
    kfs.map_values(|k: KeyFrame<P, C, F>| k.id)
}

/// Points keep their id and position.
pub open spec fn same_point<X>(a: MapPoint<X>, b: MapPoint<X>) -> bool {
    &&& a.id == b.id
    &&& a.position == b.position
    &&& a.observations@ == b.observations@
}

/// `new` is `old` after recording that keyframe `kf_id` observes point
/// `point_id`: the first point with that id gains `kf_id` at the end of its
/// observations unless it already lists it; nothing else changes.
pub open spec fn observation_added<X>(
    old: Seq<MapPoint<X>>,
    new: Seq<MapPoint<X>>,
    point_id: u64,
    kf_id: u64,
) -> bool {
    &&& new.len() == old.len()
    &&& match point_index(old, point_id) {
        Some(i) => {
            &&& forall|k: int| 0 <= k < old.len() && k != i ==> #[trigger] new[k] == old[k]
            &&& new[i].id == old[i].id
            &&& new[i].position == old[i].position
            &&& new[i].observations@ == if old[i].observations@.contains(kf_id) {
                old[i].observations@
            } else {
                old[i].observations@.push(kf_id)
            }
        },
        None => new == old,
    }
}

/// Whether a point is kept by `filter_points_by_observations(min_obs)`.
pub open spec fn enough_observations<X>(p: MapPoint<X>, min_obs: usize) -> bool {
    p.observations@.len() >= min_obs
}

/// The points `filter_points_by_observations(min_obs)` keeps, in order.
pub open spec fn kept_points<X>(points: Seq<MapPoint<X>>, min_obs: usize) -> Seq<MapPoint<X>> {
    points.filter(|p: MapPoint<X>| enough_observations(p, min_obs))
}

/// Keyframes and map points of the normalised odometry, with the counters
/// from which new ids are taken.
#[verifier::reject_recursive_types(P)]
#[verifier::reject_recursive_types(C)]
#[verifier::reject_recursive_types(F)]
#[verifier::reject_recursive_types(X)]
#[derive(Debug)]
pub struct VoMap<P, C, F, X> {
    /// All map points.
    pub points: Vec<MapPoint<X>>,
    /// All keyframes.
    pub keyframes: Vec<KeyFrame<P, C, F>>,
    next_point_id: u64,
    next_keyframe_id: u64,
}

impl<P, C, F, X> VoMap<P, C, F, X> {
    /// The map points, in order.
    pub closed spec fn points_view(&self) -> Seq<MapPoint<X>> {
        self.points@
    }

    /// The keyframes, in order.
    pub closed spec fn keyframes_view(&self) -> Seq<KeyFrame<P, C, F>> {
        self.keyframes@
    }

    /// The id the next map point will get.
    pub closed spec fn next_point_id(&self) -> u64 {
        self.next_point_id
    }

    /// The id the next keyframe will get.
    pub closed spec fn next_keyframe_id(&self) -> u64 {
        self.next_keyframe_id
    }

    /// Well-formedness: point ids and keyframe ids are strictly increasing
    /// and below the counter that hands out the next id.
    pub closed spec fn wf(&self) -> bool {
        &&& ids_fresh_below(point_ids(self.points_view()), self.next_point_id())
        &&& ids_fresh_below(keyframe_ids(self.keyframes_view()), self.next_keyframe_id())
    }

    /// An empty map; the first ids handed out are 1.
    pub fn new() -> (map: Self)
        ensures
            map.points_view().len() == 0,
            map.keyframes_view().len() == 0,
            map.next_point_id() == 1,
            map.next_keyframe_id() == 1,
            map.wf(),
    {
        VoMap { points: Vec::new(), keyframes: Vec::new(), next_point_id: 1, next_keyframe_id: 1 }
    }

    /// The ids the next map point and the next keyframe will get.
    pub fn next_ids(&self) -> (r: (u64, u64))
        ensures
            r == (self.next_point_id(), self.next_keyframe_id()),
    {
        (self.next_point_id, self.next_keyframe_id)
    }

    /// Appends `kf` under a fresh id and returns that id.
    pub fn add_keyframe(&mut self, kf: KeyFrame<P, C, F>) -> (id: u64)
        requires
            old(self).next_keyframe_id() < u64::MAX,
        ensures
            id == old(self).next_keyframe_id(),
            final(self).next_keyframe_id() == id + 1,
            final(self).next_point_id() == old(self).next_point_id(),
            final(self).points_view() == old(self).points_view(),
            final(self).keyframes_view().len() == old(self).keyframes_view().len() + 1,
            final(self).keyframes_view().drop_last() == old(self).keyframes_view(),
            final(self).keyframes_view().last().id == id,
            final(self).keyframes_view().last().pose == kf.pose,
            final(self).keyframes_view().last().features == kf.features,
            final(self).keyframes_view().last().timestamp == kf.timestamp,
            old(self).wf() ==> final(self).wf(),
    {
        let id = self.next_keyframe_id;
        let KeyFrame { id: _, pose, features, timestamp } = kf;
        self.keyframes.push(KeyFrame { id, pose, features, timestamp });
        self.next_keyframe_id = self.next_keyframe_id + 1;
        proof {
            assert(final(self).keyframes_view().drop_last() =~= old(self).keyframes_view());
            let ids = keyframe_ids(self.keyframes_view());
            let old_ids = keyframe_ids(old(self).keyframes_view());
            assert forall|i: int| 0 <= i < old_ids.len() implies #[trigger] ids[i] == old_ids[i] by {}
        }
        id
    }

    /// Appends a map point at `position`, observed by keyframe `kf_id`, under
    /// a fresh id and returns that id.
    pub fn create_map_point(&mut self, position: X, kf_id: u64) -> (id: u64)
        requires
            old(self).next_point_id() < u64::MAX,
        ensures
            id == old(self).next_point_id(),
            final(self).next_point_id() == id + 1,
            final(self).next_keyframe_id() == old(self).next_keyframe_id(),
            final(self).keyframes_view() == old(self).keyframes_view(),
            final(self).points_view().len() == old(self).points_view().len() + 1,
            final(self).points_view().drop_last() == old(self).points_view(),
            final(self).points_view().last().id == id,
            final(self).points_view().last().position == position,
            final(self).points_view().last().observations@ == seq![kf_id],
            old(self).wf() ==> final(self).wf(),
    {
        let id = self.next_point_id;
        let mut observations: Vec<u64> = Vec::new();
        observations.push(kf_id);
        self.points.push(MapPoint { id, position, observations });
        self.next_point_id = self.next_point_id + 1;
        proof {
            assert(final(self).points_view().drop_last() =~= old(self).points_view());
            let ids = point_ids(self.points_view());
            let old_ids = point_ids(old(self).points_view());
            assert forall|i: int| 0 <= i < old_ids.len() implies #[trigger] ids[i] == old_ids[i] by {}
        }
        id
    }

    /// The last `n` keyframes (all of them when there are fewer).
    pub fn last_keyframes(&self, n: usize) -> (r: &[KeyFrame<P, C, F>])
        ensures
            r@ == self.keyframes_view().subrange(
                if n < self.keyframes_view().len() { self.keyframes_view().len() - n } else { 0 },
                self.keyframes_view().len() as int,
            ),
    {
        let len = self.keyframes.len();
        let start = len.saturating_sub(n);
        vstd::slice::slice_subrange(self.keyframes.as_slice(), start, len)
    }

    /// The most recent keyframe, if any.
    pub fn last_keyframe(&self) -> (r: Option<&KeyFrame<P, C, F>>)
        ensures
            match r {
                Some(k) => self.keyframes_view().len() > 0 && *k == self.keyframes_view().last(),
                None => self.keyframes_view().len() == 0,
            },
    {
        let len = self.keyframes.len();
        if len == 0 {
            None
        } else {
            Some(&self.keyframes[len - 1])
        }
    }

    /// Position in `points` of the first point with id `id`.
    fn find_point(&self, id: u64) -> (r: Option<usize>)
        ensures
            match r {
                Some(i) => i < self.points_view().len() && point_index(self.points_view(), id) == Some(
                    i as int,
                ),
                None => point_index(self.points_view(), id) is None,
            },
    {
        find_point_in(&self.points, id)
    }

    /// The first point with id `id`, if any.
    pub fn get_point(&self, id: u64) -> (r: Option<&MapPoint<X>>)
        ensures
            match point_index(self.points_view(), id) {
                Some(i) => r == Some(&self.points_view()[i]),
                None => r is None,
            },
    {
        match self.find_point(id) {
            Some(i) => Some(&self.points[i]),
            None => None,
        }
    }

    /// Mutable access to the first point with id `id`, if any.
    pub fn get_point_mut(&mut self, id: u64) -> (r: Option<&mut MapPoint<X>>)
        ensures
            match point_index(old(self).points_view(), id) {
                Some(i) => match r {
                    Some(p) => {
                        &&& *p == old(self).points_view()[i]
                        &&& final(self).points_view() == old(self).points_view().update(i, *final(p))
                    },
                    None => false,
                },
                None => r is None && final(self).points_view() == old(self).points_view(),
            },
            final(self).keyframes_view() == old(self).keyframes_view(),
            final(self).next_point_id() == old(self).next_point_id(),
            final(self).next_keyframe_id() == old(self).next_keyframe_id(),
    {
        match self.find_point(id) {
            Some(i) => Some(&mut self.points[i]),
            None => None,
        }
    }

    /// Removes the points seen in fewer than `min_obs` keyframes, keeping
    /// the order of the others.
    pub fn filter_points_by_observations(&mut self, min_obs: usize)
        ensures
            final(self).points_view() == kept_points(old(self).points_view(), min_obs),
            final(self).keyframes_view() == old(self).keyframes_view(),
            final(self).next_point_id() == old(self).next_point_id(),
            final(self).next_keyframe_id() == old(self).next_keyframe_id(),
            old(self).wf() ==> final(self).wf(),
    {
        let ghost orig = self.points@;
        let ghost pred = |p: MapPoint<X>| enough_observations(p, min_obs);
        let mut rest: Vec<MapPoint<X>> = Vec::new();
        std::mem::swap(&mut rest, &mut self.points);
        let n = rest.len();
        let mut reversed: Vec<MapPoint<X>> = Vec::new();
        while rest.len() > 0
            invariant
                n == orig.len(),
                rest@ == orig.take(rest@.len() as int),
                reversed@.len() == n - rest@.len(),
                forall|i: int| 0 <= i < reversed@.len() ==> #[trigger] reversed@[i] == orig[n - 1 - i],
            decreases rest@.len(),
        {
            let p = rest.pop().unwrap();
            reversed.push(p);
            assert(rest@ =~= orig.take(rest@.len() as int));
        }
        let mut kept: Vec<MapPoint<X>> = Vec::new();
        assert(orig.take(0).filter(pred) =~= Seq::<MapPoint<X>>::empty()) by {
            reveal(Seq::filter);
        }
        while reversed.len() > 0
            invariant
                n == orig.len(),
                reversed@.len() <= n,
                forall|i: int| 0 <= i < reversed@.len() ==> #[trigger] reversed@[i] == orig[n - 1 - i],
                kept@ == orig.take(n - reversed@.len()).filter(pred),
                pred == (|p: MapPoint<X>| enough_observations(p, min_obs)),
            decreases reversed@.len(),
        {
            let ghost k = n - reversed@.len();
            let p = reversed.pop().unwrap();
            proof {
                assert(p == orig[k]);
                assert(orig.take(k + 1) =~= orig.take(k).push(orig[k]));
                orig.take(k).lemma_filter_push(orig[k], pred);
                assert(pred(orig[k]) == (orig[k].observations@.len() >= min_obs));
            }
            if p.observations.len() >= min_obs {
                kept.push(p);
            }
        }
        assert(orig.take(n as int) =~= orig);
        self.points = kept;
        proof {
            if old(self).wf() {
                lemma_filter_keeps_fresh_ids(orig, pred, self.next_point_id);
            }
        }
    }
}

/// Filtering points keeps their ids increasing and below the counter.
proof fn lemma_filter_keeps_fresh_ids<X>(s: Seq<MapPoint<X>>, pred: spec_fn(MapPoint<X>) -> bool, next: u64)
    requires
        ids_fresh_below(point_ids(s), next),
    ensures
        ids_fresh_below(point_ids(s.filter(pred)), next),
        forall|i: int| 0 <= i < s.filter(pred).len() ==> exists|j: int| 0 <= j < s.len() && #[trigger] s.filter(pred)[i] == s[j],
    decreases s.len(),
{
    reveal(Seq::filter);
    if s.len() > 0 {
        let d = s.drop_last();
        assert forall|i: int| 0 <= i < point_ids(d).len() implies #[trigger] point_ids(d)[i] == point_ids(s)[i] by {}
        lemma_filter_keeps_fresh_ids(d, pred, next);
        let fd = d.filter(pred);
        if pred(s.last()) {
            let f = fd.push(s.last());
            assert(s.filter(pred) == f);
            assert forall|i: int| 0 <= i < f.len() implies exists|j: int| 0 <= j < s.len() && #[trigger] f[i] == s[j] by {
                if i == fd.len() {
                    assert(f[i] == s[s.len() - 1]);
                } else {
                    let j = choose|j: int| 0 <= j < d.len() && #[trigger] fd[i] == d[j];
                    assert(f[i] == s[j]);
                }
            }
            assert forall|a: int, b: int| 0 <= a < b < f.len() implies point_ids(f)[a] < point_ids(f)[b] by {
                if b == fd.len() {
                    let j = choose|j: int| 0 <= j < d.len() && #[trigger] fd[a] == d[j];
                    assert(point_ids(s)[j] < point_ids(s)[s.len() - 1]);
                    assert(point_ids(f)[a] == point_ids(fd)[a]);
                } else {
                    assert(point_ids(f)[a] == point_ids(fd)[a]);
                    assert(point_ids(f)[b] == point_ids(fd)[b]);
                }
            }
            assert forall|a: int| 0 <= a < f.len() implies #[trigger] point_ids(f)[a] < next by {
                if a == fd.len() {
                    assert(point_ids(s)[s.len() - 1] < next);
                } else {
                    assert(point_ids(f)[a] == point_ids(fd)[a]);
                }
            }
        } else {
            assert(s.filter(pred) == fd);
            assert forall|i: int| 0 <= i < fd.len() implies exists|j: int| 0 <= j < s.len() && #[trigger] fd[i] == s[j] by {
                let j = choose|j: int| 0 <= j < d.len() && #[trigger] fd[i] == d[j];
                assert(fd[i] == s[j]);
            }
        }
    }
}

/// Position in `points` of the first point with id `id`.
pub fn find_point_in<X>(points: &Vec<MapPoint<X>>, id: u64) -> (r: Option<usize>)
    ensures
        match r {
            Some(i) => i < points@.len() && point_index(points@, id) == Some(i as int),
            None => point_index(points@, id) is None,
        },
{
    proof {
        lemma_point_index(points@, id);
    }
    let mut i: usize = 0;
    while i < points.len()
        invariant
            i <= points@.len(),
            forall|k: int| 0 <= k < i ==> #[trigger] points@[k].id != id,
            match point_index(points@, id) {
                Some(f) => 0 <= f < points@.len() && points@[f].id == id && forall|k: int|
                    0 <= k < f ==> #[trigger] points@[k].id != id,
                None => forall|k: int| 0 <= k < points@.len() ==> #[trigger] points@[k].id != id,
            },
        decreases points@.len() - i,
    {
        if points[i].id == id {
            proof {
                match point_index(points@, id) {
                    Some(f) => {
                        if f < i {
                            assert(points@[f].id != id);
                        }
                        if f > i {
                            assert(points@[i as int].id != id);
                        }
                    },
                    None => {
                        assert(points@[i as int].id != id);
                    },
                }
            }
            return Some(i);
        }
        i = i + 1;
    }
    proof {
        match point_index(points@, id) {
            Some(f) => {
                assert(points@[f].id != id);
            },
            None => {},
        }
    }
    None
}

/// Records that keyframe `kf_id` observes point `point_id`: the first point
/// with that id gains `kf_id` at the end of its observations unless it
/// already lists it. Nothing happens when no point has that id.
pub fn add_observation<P, C, F, X>(map: &mut VoMap<P, C, F, X>, point_id: u64, kf_id: u64)
    ensures
        observation_added(old(map).points_view(), final(map).points_view(), point_id, kf_id),
        final(map).keyframes_view() == old(map).keyframes_view(),
        final(map).next_point_id() == old(map).next_point_id(),
        final(map).next_keyframe_id() == old(map).next_keyframe_id(),
        old(map).wf() ==> final(map).wf(),
{
    proof {
        lemma_point_index(old(map).points_view(), point_id);
    }
    match map.get_point_mut(point_id) {
        Some(pt) => {
            if !vec_contains(&pt.observations, kf_id) {
                pt.observations.push(kf_id);
            }
        },
        None => {},
    }
    proof {
        let o = old(map).points_view();
        let nw = map.points_view();
        if let Some(i) = point_index(o, point_id) {
            assert(point_ids(nw) =~= point_ids(o)) by {
                assert forall|k: int| 0 <= k < o.len() implies #[trigger] point_ids(nw)[k] == point_ids(o)[k] by {}
            }
        }
    }
}

/// Whether the current frame becomes a keyframe, given whether it is the
/// first frame, how many features were followed into it (`total`), how many
/// of those tracks survived (`surviving`), and whether their mean displacement
/// exceeded the keyframe threshold (`moved_far`, only read when a track
/// survived): always for the first frame or when every track was lost,
/// otherwise when the features moved far or more than half the tracks were
/// lost.
pub fn should_be_keyframe(is_first_frame: bool, total: usize, surviving: usize, moved_far: bool) -> (r: bool)
    requires
        surviving <= total,
    ensures
        r == (is_first_frame || surviving == 0 || moved_far || total - surviving > total / 2),
{
    if is_first_frame {
        return true;
    }
    if surviving == 0 {
        return true;
    }
    moved_far || total - surviving > total / 2
}

/// Whether `v` holds `x`.
fn vec_contains(v: &Vec<u64>, x: u64) -> (r: bool)
    ensures
        r == v@.contains(x),
{
    let mut i: usize = 0;
    while i < v.len()
        invariant
            i <= v@.len(),
            forall|k: int| 0 <= k < i ==> v@[k] != x,
        decreases v@.len() - i,
    {
        if v[i] == x {
            return true;
        }
        i = i + 1;
    }
    false
}

} // verus!

verus! {

/// Law: in a well-formed map no two points and no two keyframes share an id.
pub proof fn law_ids_unique<P, C, F, X>(map: VoMap<P, C, F, X>)
    requires
        map.wf(),
    ensures
        forall|i: int, k: int|
            0 <= i < k < map.points_view().len() ==> map.points_view()[i].id
                != map.points_view()[k].id,
        forall|i: int, k: int|
            0 <= i < k < map.keyframes_view().len() ==> map.keyframes_view()[i].id
                != map.keyframes_view()[k].id,
{
    let pids = point_ids(map.points_view());
    let kids = keyframe_ids(map.keyframes_view());
    assert forall|i: int, k: int| 0 <= i < k < map.points_view().len() implies map.points_view()[i].id
        != map.points_view()[k].id by {
        assert(pids[i] < pids[k]);
    }
    assert forall|i: int, k: int|
        0 <= i < k < map.keyframes_view().len() implies map.keyframes_view()[i].id
        != map.keyframes_view()[k].id by {
        assert(kids[i] < kids[k]);
    }
}

/// Law: in a well-formed map, the point `create_map_point` adds is the one
/// found under the id it returns (`before` and `after` are the map around
/// the call, `id` its result).
pub proof fn law_created_point_is_found<P, C, F, X>(
    before: VoMap<P, C, F, X>,
    after: VoMap<P, C, F, X>,
    id: u64,
)
    requires
        before.wf(),
        id == before.next_point_id(),
        after.points_view().len() == before.points_view().len() + 1,
        after.points_view().drop_last() == before.points_view(),
        after.points_view().last().id == id,
    ensures
        point_index(after.points_view(), id) == Some(before.points_view().len() as int),
{
    let b = before.points_view();
    let a = after.points_view();
    lemma_point_index(a, id);
    let pids = point_ids(b);
    match point_index(a, id) {
        Some(i) => {
            if i < b.len() {
                assert(a[i] == b[i]);
                assert(pids[i] < id);
            }
        },
        None => {
            assert(a[b.len() as int].id == id);
        },
    }
}

/// Law: recording the same observation twice changes nothing the second time.
pub proof fn law_add_observation_idempotent<X>(
    a: Seq<MapPoint<X>>,
    b: Seq<MapPoint<X>>,
    c: Seq<MapPoint<X>>,
    point_id: u64,
    kf_id: u64,
)
    requires
        observation_added(a, b, point_id, kf_id),
        observation_added(b, c, point_id, kf_id),
    ensures
        c.len() == b.len(),
        forall|k: int| 0 <= k < b.len() ==> same_point(#[trigger] c[k], b[k]),
{
    lemma_point_index(a, point_id);
    lemma_point_index(b, point_id);
    match point_index(a, point_id) {
        Some(i) => {
            assert forall|k: int| 0 <= k < i implies #[trigger] b[k].id != point_id by {
                assert(b[k] == a[k]);
            }
            assert(point_index(b, point_id) == Some(i)) by {
                match point_index(b, point_id) {
                    Some(j) => {
                        if j > i {
                            assert(b[i].id == point_id);
                        }
                    },
                    None => {
                        assert(b[i].id == point_id);
                    },
                }
            }
            assert(b[i].observations@.contains(kf_id)) by {
                if !a[i].observations@.contains(kf_id) {
                    assert(b[i].observations@.last() == kf_id);
                }
            }
        },
        None => {},
    }
}

/// Law: after `filter_points_by_observations(min_obs)` every remaining point
/// is seen in at least `min_obs` keyframes, and filtering again keeps them all.
pub proof fn law_filter_points_idempotent<X>(points: Seq<MapPoint<X>>, min_obs: usize)
    ensures
        forall|i: int|
            0 <= i < kept_points(points, min_obs).len() ==> enough_observations(
                #[trigger] kept_points(points, min_obs)[i],
                min_obs,
            ),
        kept_points(kept_points(points, min_obs), min_obs) == kept_points(points, min_obs),
{
    let pred = |p: MapPoint<X>| enough_observations(p, min_obs);
    broadcast use vstd::seq_lib::group_filter_ensures;
    let f = points.filter(pred);
    assert forall|i: int| 0 <= i < f.len() implies pred(#[trigger] f[i]) by {}
    lemma_filter_all_true(f, pred);
}

/// Filtering a sequence whose elements all satisfy the predicate keeps it.
proof fn lemma_filter_all_true<A>(s: Seq<A>, pred: spec_fn(A) -> bool)
    requires
        forall|i: int| 0 <= i < s.len() ==> pred(#[trigger] s[i]),
    ensures
        s.filter(pred) == s,
    decreases s.len(),
{
    reveal(Seq::filter);
    if s.len() > 0 {
        lemma_filter_all_true(s.drop_last(), pred);
        assert(pred(s[s.len() - 1]));
        assert(s.drop_last().push(s.last()) =~= s);
    } else {
        assert(s.filter(pred) =~= s);
    }
}


/// Law: recording that keyframe `kf_id` observes point `point_id` touches only
/// the first point with that id (`i`). Afterwards that point lists `kf_id`; if
/// it listed `kf_id` anywhere before, its observations are unchanged, and
/// otherwise `kf_id` is appended once. So recording never makes a keyframe
/// occur twice in a point's observations. Without such a point nothing changes.
pub proof fn law_recording_an_observation<X>(
    old: Seq<MapPoint<X>>,
    new: Seq<MapPoint<X>>,
    point_id: u64,
    kf_id: u64,
)
    requires
        observation_added(old, new, point_id, kf_id),
    ensures
        new.len() == old.len(),
        (forall|k: int| 0 <= k < old.len() ==> #[trigger] old[k].id != point_id) ==> new == old,
        forall|i: int|
            0 <= i < old.len() && #[trigger] old[i].id == point_id && (forall|l: int|
                0 <= l < i ==> old[l].id != point_id) ==> {
                &&& forall|k: int| 0 <= k < old.len() && k != i ==> #[trigger] new[k] == old[k]
                &&& new[i].id == old[i].id
                &&& new[i].position == old[i].position
                &&& new[i].observations@.contains(kf_id)
                &&& old[i].observations@.contains(kf_id) ==> new[i].observations@
                    == old[i].observations@
                &&& !old[i].observations@.contains(kf_id) ==> new[i].observations@
                    == old[i].observations@.push(kf_id)
                &&& old[i].observations@.no_duplicates() ==> new[i].observations@.no_duplicates()
            },
{
    lemma_point_index(old, point_id);
    assert forall|i: int|
        0 <= i < old.len() && #[trigger] old[i].id == point_id && (forall|l: int|
            0 <= l < i ==> old[l].id != point_id) implies {
            &&& forall|k: int| 0 <= k < old.len() && k != i ==> #[trigger] new[k] == old[k]
            &&& new[i].id == old[i].id
            &&& new[i].position == old[i].position
            &&& new[i].observations@.contains(kf_id)
            &&& old[i].observations@.contains(kf_id) ==> new[i].observations@
                == old[i].observations@
            &&& !old[i].observations@.contains(kf_id) ==> new[i].observations@
                == old[i].observations@.push(kf_id)
            &&& old[i].observations@.no_duplicates() ==> new[i].observations@.no_duplicates()
        } by {
        match point_index(old, point_id) {
            Some(f) => {
                if f < i {
                    assert(old[f].id != point_id);
                }
                if f > i {
                    assert(old[i].id != point_id);
                }
            },
            None => {
                assert(old[i].id != point_id);
            },
        }
        let o = old[i].observations@;
        let nw = new[i].observations@;
        if !o.contains(kf_id) {
            assert(nw.last() == kf_id);
            assert(nw[nw.len() - 1] == kf_id);
            if o.no_duplicates() {
                assert forall|a: int, b: int| 0 <= a < nw.len() && 0 <= b < nw.len() && a != b implies nw[a]
                    != nw[b] by {
                    if a < o.len() && b < o.len() {
                        assert(nw[a] == o[a]);
                        assert(nw[b] == o[b]);
                    } else if a < o.len() {
                        assert(nw[a] == o[a]);
                    } else {
                        assert(nw[b] == o[b]);
                    }
                }
            }
        }
    }
    if forall|k: int| 0 <= k < old.len() ==> #[trigger] old[k].id != point_id {
        match point_index(old, point_id) {
            Some(f) => {
                assert(old[f].id == point_id);
            },
            None => {},
        }
    }
}

} // verus!
