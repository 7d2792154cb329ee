use tracker::input::{parse_calib_line, parse_ground_truth_line};
use tracker::text::{contains_chars, parse_u32, parse_u64, remove_brackets, split_on_char, split_whitespace, str_chars};

fn chars(s: &str) -> Vec<char> {
    s.chars().collect()
}

fn strings(v: &[Vec<char>]) -> Vec<String> {
    v.iter().map(|t| t.iter().collect()).collect()
}

#[test]
fn focal_length_line() {
    let l = parse_calib_line("FocalLength: [1389.7 1387.1]");
    assert!(l.focal_length && !l.principal_point && !l.radial_distortion && !l.image_size);
    assert_eq!(strings(&l.values), vec!["1389.7", "1387.1"]);
    assert!(l.integer_values.is_empty());
}

#[test]
fn image_size_line() {
    let l = parse_calib_line("   ImageSize:   [1920   1080]  ");
    assert!(l.image_size && !l.focal_length);
    assert_eq!(strings(&l.values), vec!["1920", "1080"]);
    assert_eq!(l.integer_values, vec![1920, 1080]);
}

#[test]
fn bracket_tokens_may_become_empty() {
    let l = parse_calib_line("RadialDistortion: [ 0.1378 -0.2564 ]");
    assert!(l.radial_distortion);
    assert_eq!(strings(&l.values), vec!["", "0.1378", "-0.2564", ""]);
}

#[test]
fn marked_line_names_no_key() {
    let l = parse_calib_line("RGB Camera 1080p FocalLength: [1 2]");
    assert!(!l.focal_length && !l.principal_point && !l.radial_distortion && !l.image_size);
    assert_eq!(l.integer_values, vec![1, 2]);
}

#[test]
fn line_may_name_several_keys() {
    let l = parse_calib_line("PrincipalPoint: FocalLength: 3 4");
    assert!(l.focal_length && l.principal_point);
    assert_eq!(strings(&l.values), vec!["FocalLength:", "3", "4"]);
    assert_eq!(l.integer_values, vec![3, 4]);
}

#[test]
fn empty_calibration_line() {
    let l = parse_calib_line("");
    assert!(!l.focal_length && l.values.is_empty() && l.integer_values.is_empty());
}

#[test]
fn ground_truth_line_fields() {
    let g = parse_ground_truth_line("1.5,-2.5,3.5,42").unwrap();
    assert_eq!(g.x.iter().collect::<String>(), "1.5");
    assert_eq!(g.y.iter().collect::<String>(), "-2.5");
    assert_eq!(g.z.iter().collect::<String>(), "3.5");
    assert_eq!(g.frame, 42);
}

#[test]
fn ground_truth_line_defaults_and_rejects() {
    assert!(parse_ground_truth_line("1,2,3").is_none());
    assert!(parse_ground_truth_line("").is_none());
    assert_eq!(parse_ground_truth_line("1,2,3,x").unwrap().frame, 0);
    assert_eq!(parse_ground_truth_line("1,2,3,+7,9").unwrap().frame, 7);
    assert_eq!(parse_ground_truth_line("1,2,3, 7").unwrap().frame, 0);
    assert_eq!(parse_ground_truth_line("1,2,3,18446744073709551616").unwrap().frame, 0);
    assert_eq!(parse_ground_truth_line(",,,5").unwrap().x.len(), 0);
}

#[test]
fn unsigned_parsing_follows_std() {
    for s in ["", "+", "-5", "5 ", "1_0", "0x10", "++1", "18446744073709551616"] {
        assert_eq!(parse_u64(&chars(s)), s.parse::<u64>().ok(), "{:?}", s);
    }
    for s in ["0", "+5", "007", "18446744073709551615", "42"] {
        assert_eq!(parse_u64(&chars(s)), s.parse::<u64>().ok(), "{:?}", s);
    }
    for s in ["4294967295", "4294967296", "+0", "99999999999"] {
        assert_eq!(parse_u32(&chars(s)), s.parse::<u32>().ok(), "{:?}", s);
    }
}

#[test]
fn whitespace_splitting_follows_std() {
    for s in ["  a  b\tc\u{3000}d ", "", "   ", "x", "a\u{85}b\u{a0}c\u{2009}d"] {
        let expected: Vec<String> = s.split_whitespace().map(String::from).collect();
        assert_eq!(strings(&split_whitespace(&chars(s))), expected, "{:?}", s);
    }
}

#[test]
fn comma_splitting_follows_std() {
    for s in ["a,,b", "", ",", "x,y,", "only"] {
        let expected: Vec<String> = s.split(',').map(String::from).collect();
        assert_eq!(strings(&split_on_char(&chars(s), ',')), expected, "{:?}", s);
    }
}

#[test]
fn substring_and_brackets() {
    assert!(contains_chars(&chars("xxFocalLength:yy"), &chars("FocalLength:")));
    assert!(!contains_chars(&chars("FocalLength"), &chars("FocalLength:")));
    assert!(contains_chars(&chars("abc"), &chars("")));
    assert_eq!(remove_brackets(&chars("[1.5]]")).iter().collect::<String>(), "1.5");
    assert_eq!(str_chars("héllo"), chars("héllo"));
}
