use tracker::gmc::{extract_points, KeypointLookupError, MatchIndices};

fn m(q: i32, t: i32) -> MatchIndices {
    MatchIndices { query_idx: q, train_idx: t }
}

#[test]
fn points_follow_the_matches() {
    let prev = [(0.0f32, 0.0f32), (1.0, 1.0), (2.0, 2.0)];
    let curr = [(10.0f32, 10.0f32), (11.0, 11.0)];
    let (p, c) = extract_points(&curr, &prev, &[m(2, 0), m(0, 1), m(2, 1)]).unwrap();
    assert_eq!(p, vec![(2.0, 2.0), (0.0, 0.0), (2.0, 2.0)]);
    assert_eq!(c, vec![(10.0, 10.0), (11.0, 11.0), (11.0, 11.0)]);
}

#[test]
fn no_matches_no_points() {
    let prev: [u8; 0] = [];
    let (p, c) = extract_points(&prev, &prev, &[]).unwrap();
    assert!(p.is_empty() && c.is_empty());
}

#[test]
fn bad_query_index_is_reported() {
    let prev = [1u8, 2];
    let curr = [3u8];
    assert_eq!(extract_points(&curr, &prev, &[m(0, 0), m(2, 0)]), Err(KeypointLookupError::PrevKeypoint(2)));
    assert_eq!(extract_points(&curr, &prev, &[m(-1, 0)]), Err(KeypointLookupError::PrevKeypoint(-1)));
}

#[test]
fn bad_train_index_is_reported() {
    let prev = [1u8, 2];
    let curr = [3u8];
    assert_eq!(extract_points(&curr, &prev, &[m(1, 1)]), Err(KeypointLookupError::CurrKeypoint(1)));
    assert_eq!(extract_points(&curr, &prev, &[m(1, -4)]), Err(KeypointLookupError::CurrKeypoint(-4)));
}

#[test]
fn first_failing_match_decides() {
    let prev = [1u8, 2];
    let curr = [3u8];
    // query checked before train within a match, earlier match before later
    assert_eq!(extract_points(&curr, &prev, &[m(5, 5)]), Err(KeypointLookupError::PrevKeypoint(5)));
    assert_eq!(extract_points(&curr, &prev, &[m(0, 3), m(9, 0)]), Err(KeypointLookupError::CurrKeypoint(3)));
}
