use tracker::trajectory::match_frames;

#[test]
fn samples_pair_by_frame_index() {
    let est = [0usize, 1, 2, 3];
    let gt = [3u32, 1, 0];
    assert_eq!(match_frames(&est, &gt), vec![(0, 2), (1, 1), (3, 0)]);
}

#[test]
fn last_ground_truth_record_wins() {
    let est = [5usize, 5];
    let gt = [5u32, 7, 5];
    assert_eq!(match_frames(&est, &gt), vec![(0, 2), (1, 2)]);
}

#[test]
fn nothing_to_pair() {
    assert!(match_frames(&[], &[1, 2]).is_empty());
    assert!(match_frames(&[1, 2], &[]).is_empty());
    assert!(match_frames(&[4], &[1, 2]).is_empty());
}
