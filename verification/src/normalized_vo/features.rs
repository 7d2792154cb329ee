//! The segment test of the FAST corner detector.
use vstd::prelude::*;

verus! {

/// The flag at position `p` of the circle, read with wrap-around.
pub open spec fn circ(arr: Seq<bool>, p: int) -> bool {
    arr[p % 16]
}

/// `arr` holds, read circularly from `start`, `len` consecutive `true` values.
pub open spec fn run_from(arr: Seq<bool>, start: int, len: int) -> bool {
    forall|m: int| 0 <= m < len ==> #[trigger] circ(arr, start + m)
}

/// What the segment test answers for the 16 circle flags `arr` and run length `n`:
/// whether some circular run of `n` consecutive flags is set. An empty run
/// (`n == 0`) is always there; a run longer than the circle (`n > 16`) never is.
pub open spec fn has_circular_run(arr: Seq<bool>, n: int) -> bool {
    if n == 0 {
        true
    } else {
        n <= 16 && exists|s: int| 0 <= s < 16 && #[trigger] run_from(arr, s, n)
    }
}

/// A circular run does not depend on which lap its start is counted in.
proof fn lemma_run_shift(arr: Seq<bool>, s: int, len: int)
    requires
        s >= 16,
    ensures
        run_from(arr, s, len) == run_from(arr, s - 16, len),
{
    if run_from(arr, s, len) {
        assert forall|m: int| 0 <= m < len implies #[trigger] circ(arr, s - 16 + m) by {
            assert((s + m) % 16 == (s - 16 + m) % 16);
            assert(circ(arr, s + m));
        }
    }
    if run_from(arr, s - 16, len) {
        assert forall|m: int| 0 <= m < len implies #[trigger] circ(arr, s + m) by {
            assert((s + m) % 16 == (s - 16 + m) % 16);
            assert(circ(arr, s - 16 + m));
        }
    }
}

/// Checks whether the 16 circle flags contain `n` consecutive `true`
/// values, reading the circle with wrap-around; `n == 0` always holds.
pub fn has_consecutive_n(arr: &[bool; 16], n: u32) -> (res: bool)
    ensures
        res == has_circular_run(arr@, n as int),
{
    if n == 0 {
        return true;
    }
    let mut start: usize = 0;
    while start < 16
        invariant
            start <= 16,
            arr@.len() == 16,
            n >= 1,
            n <= 16 ==> forall|s: int| 0 <= s < start ==> !#[trigger] run_from(arr@, s, n as int),
        decreases 16 - start,
    {
        let mut count: u32 = 0;
        let mut j: usize = 0;
        while j < 16
            invariant
                start < 16,
                j <= 16,
                arr@.len() == 16,
                count as int <= j,
                n >= 1,
                count < n,
                forall|i: int| 0 <= i < count ==> #[trigger] circ(arr@, start + j - count + i),
                run_from(arr@, start as int, n as int) ==> j < n && count == j,
            decreases 16 - j,
        {
            assert(arr@[((start + j) % 16) as int] == circ(arr@, start + j));
            if arr[(start + j) % 16] {
                count = count + 1;
                if count >= n {
                    proof {
                        let s0 = start + j + 1 - n;
                        assert(count == n);
                        assert forall|m: int| 0 <= m < n implies #[trigger] circ(arr@, s0 + m) by {
                            if m < n - 1 {
                                assert(circ(arr@, start + j - (count - 1) + m));
                            }
                        }
                        assert(run_from(arr@, s0, n as int));
                        if s0 >= 16 {
                            lemma_run_shift(arr@, s0, n as int);
                        }
                        let s1 = if s0 >= 16 { s0 - 16 } else { s0 };
                        assert(run_from(arr@, s1, n as int));
                    }
                    return true;
                }
                proof {
                    assert forall|i: int| 0 <= i < count implies #[trigger] circ(arr@, start + (j + 1) - count + i) by {
                        if i < count - 1 {
                            assert(circ(arr@, start + j - (count - 1) + i));
                        }
                    }
                }
            } else {
                count = 0;
            }
            j = j + 1;
        }
        start = start + 1;
    }
    false
}

/// The 16 circle flags read from position `k` on.
pub open spec fn rotated(arr: Seq<bool>, k: int) -> Seq<bool> {
    Seq::new(16, |i: int| arr[(i + k) % 16])
}

/// Law: the segment test has no distinguished starting pixel: turning the
/// circle by any number of positions leaves the answer unchanged.
pub proof fn law_segment_test_rotation(arr: Seq<bool>, k: int, n: int)
    requires
        arr.len() == 16,
        0 <= k < 16,
        0 <= n,
    ensures
        has_circular_run(rotated(arr, k), n) == has_circular_run(arr, n),
{
    let r = rotated(arr, k);
    assert forall|p: int| p >= 0 implies #[trigger] circ(r, p) == circ(arr, p + k) by {
        assert(((p % 16) + k) % 16 == (p + k) % 16);
    }
    if 1 <= n <= 16 {
        assert forall|s: int| 0 <= s < 16 implies #[trigger] run_from(r, s, n) == run_from(arr, s + k, n) by {
            if run_from(r, s, n) {
                assert forall|m: int| 0 <= m < n implies #[trigger] circ(arr, s + k + m) by {
                    assert(circ(r, s + m));
                }
            }
            if run_from(arr, s + k, n) {
                assert forall|m: int| 0 <= m < n implies #[trigger] circ(r, s + m) by {
                    assert(circ(arr, s + k + m));
                }
            }
        }
        if exists|s: int| 0 <= s < 16 && #[trigger] run_from(arr, s, n) {
            let s = choose|s: int| 0 <= s < 16 && #[trigger] run_from(arr, s, n);
            let t = (s + 16 - k) % 16;
            if t + k >= 16 {
                lemma_run_shift(arr, t + k, n);
                assert(t + k - 16 == s);
            } else {
                assert(t + k == s);
            }
            assert(run_from(r, t, n));
        }
        if exists|t: int| 0 <= t < 16 && #[trigger] run_from(r, t, n) {
            let t = choose|t: int| 0 <= t < 16 && #[trigger] run_from(r, t, n);
            assert(run_from(arr, t + k, n));
            if t + k >= 16 {
                lemma_run_shift(arr, t + k, n);
                assert(run_from(arr, t + k - 16, n));
            }
        }
    }
}


/// Every flag of the window of `n` positions starting at `s` is set, the
/// circle of 16 positions read with wrap-around.
pub open spec fn window_all_set(arr: Seq<bool>, s: int, n: int) -> bool {
    forall|m: int| 0 <= m < n ==> #[trigger] arr[(s + m) % 16]
}

/// Law: the segment test answers, for `1 <= n <= 16`, whether some window of
/// `n` consecutive positions of the circle (read with wrap-around) has every
/// flag set; so when every run of set flags is shorter than `n` it answers
/// false. An empty run always exists and a run longer than the circle never.
pub proof fn law_segment_test_windows(arr: Seq<bool>, n: int)
    requires
        arr.len() == 16,
        0 <= n,
    ensures
        has_circular_run(arr, n) == (n == 0 || (n <= 16 && exists|s: int|
            0 <= s < 16 && #[trigger] window_all_set(arr, s, n))),
{
    if 1 <= n <= 16 {
        if has_circular_run(arr, n) {
            let s = choose|s: int| 0 <= s < 16 && #[trigger] run_from(arr, s, n);
            assert forall|m: int| 0 <= m < n implies #[trigger] arr[(s + m) % 16] by {
                assert(circ(arr, s + m));
            }
            assert(window_all_set(arr, s, n));
        }
        if exists|s: int| 0 <= s < 16 && #[trigger] window_all_set(arr, s, n) {
            let s = choose|s: int| 0 <= s < 16 && #[trigger] window_all_set(arr, s, n);
            assert forall|m: int| 0 <= m < n implies #[trigger] circ(arr, s + m) by {
                assert(arr[(s + m) % 16]);
            }
            assert(run_from(arr, s, n));
        }
    }
}

} // verus!
