use tracker::normalized_vo::features::has_consecutive_n;

fn flags(set: &[usize]) -> [bool; 16] {
    let mut a = [false; 16];
    for &i in set {
        a[i] = true;
    }
    a
}

#[test]
fn run_of_twelve_is_found() {
    let a = flags(&(0..12).collect::<Vec<_>>());
    assert!(has_consecutive_n(&a, 12));
    assert!(!has_consecutive_n(&a, 13));
}

#[test]
fn run_wraps_around_the_circle() {
    let set: Vec<usize> = (10..16).chain(0..6).collect();
    let a = flags(&set);
    assert!(has_consecutive_n(&a, 12));
    assert!(!has_consecutive_n(&a, 13));
}

#[test]
fn broken_run_is_not_enough() {
    let mut a = [true; 16];
    a[0] = false;
    a[8] = false;
    assert!(has_consecutive_n(&a, 7));
    assert!(!has_consecutive_n(&a, 8));
}

#[test]
fn all_set_and_none_set() {
    let all = [true; 16];
    assert!(has_consecutive_n(&all, 16));
    assert!(!has_consecutive_n(&all, 17));
    let none = [false; 16];
    assert!(!has_consecutive_n(&none, 1));
    assert!(has_consecutive_n(&none, 0));
}

#[test]
fn zero_length_run_always_holds() {
    assert!(has_consecutive_n(&flags(&[]), 0));
    assert!(has_consecutive_n(&flags(&[9]), 0));
    assert!(has_consecutive_n(&flags(&[9]), 1));
    assert!(!has_consecutive_n(&flags(&[9]), 2));
}

#[test]
fn turning_the_circle_keeps_the_answer() {
    let base = flags(&[1, 2, 3, 4, 5, 6, 7, 8, 9, 14]);
    for k in 0..16 {
        let mut turned = [false; 16];
        for i in 0..16 {
            turned[i] = base[(i + k) % 16];
        }
        for n in 0..18u32 {
            assert_eq!(has_consecutive_n(&turned, n), has_consecutive_n(&base, n));
        }
    }
    assert!(has_consecutive_n(&base, 9));
    assert!(!has_consecutive_n(&base, 10));
}
