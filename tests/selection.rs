use contrasting_colors::rgb::sRGB;
use contrasting_colors::selection::{best_among, maximin_key, prefers, Best, Candidate, Goal};

fn cand(r: u8, g: u8, b: u8, key: u64) -> Candidate {
    Candidate { color: sRGB::new(r, g, b), key }
}

/// Order key of a non-negative distance.
fn dist_key(d: f64) -> u64 {
    d.to_bits()
}

#[test]
fn distance_keys_order_like_distances() {
    assert!(dist_key(1.178988628052311) > dist_key(1.0));
    assert!(dist_key(0.0) < dist_key(1e-300));
    assert!(dist_key(0.5) < dist_key(0.50000001));
}

#[test]
fn farthest_prefers_larger_key() {
    assert!(prefers(Goal::Farthest, cand(0, 0, 0, 9), cand(0, 0, 1, 3)));
    assert!(!prefers(Goal::Farthest, cand(0, 0, 0, 3), cand(0, 0, 1, 9)));
}

#[test]
fn nearest_prefers_smaller_key() {
    assert!(prefers(Goal::Nearest, cand(0, 0, 0, 3), cand(0, 0, 1, 9)));
    assert!(!prefers(Goal::Nearest, cand(0, 0, 0, 9), cand(0, 0, 1, 3)));
}

#[test]
fn equal_keys_go_to_first_color_in_gamut() {
    let lo = cand(0, 255, 255, 7);
    let hi = cand(1, 0, 0, 7);
    assert!(prefers(Goal::Farthest, lo, hi));
    assert!(!prefers(Goal::Farthest, hi, lo));
    assert!(prefers(Goal::Nearest, lo, hi));
    assert!(!prefers(Goal::Farthest, lo, lo));
}

#[test]
fn offer_keeps_the_best() {
    let mut b = Best::new(Goal::Farthest);
    assert_eq!(b.found, None);
    b.offer(cand(10, 0, 0, 5));
    assert_eq!(b.found, Some(cand(10, 0, 0, 5)));
    b.offer(cand(0, 0, 0, 4));
    assert_eq!(b.found, Some(cand(10, 0, 0, 5)));
    b.offer(cand(20, 0, 0, 8));
    assert_eq!(b.found, Some(cand(20, 0, 0, 8)));
    b.offer(cand(5, 0, 0, 8));
    assert_eq!(b.found, Some(cand(5, 0, 0, 8)));
    assert_eq!(b.goal, Goal::Farthest);
}

#[test]
fn merge_matches_a_single_scan_either_way() {
    let all = vec![
        cand(3, 3, 3, 4),
        cand(255, 255, 0, 11),
        cand(9, 9, 9, 11),
        cand(0, 0, 255, 2),
        cand(1, 2, 3, 10),
    ];
    let whole = best_among(Goal::Farthest, &all);
    assert_eq!(whole, Some(cand(9, 9, 9, 11)));
    for split in 0..=all.len() {
        let mut left = Best::new(Goal::Farthest);
        let mut right = Best::new(Goal::Farthest);
        for c in &all[..split] {
            left.offer(*c);
        }
        for c in &all[split..] {
            right.offer(*c);
        }
        assert_eq!(left.merge(right).found, whole);
        assert_eq!(right.merge(left).found, whole);
    }
}

#[test]
fn scan_result_does_not_depend_on_order() {
    let mut v = vec![
        cand(8, 1, 1, 6),
        cand(2, 2, 2, 6),
        cand(4, 0, 0, 1),
        cand(7, 7, 7, 5),
    ];
    let first = best_among(Goal::Farthest, &v);
    v.reverse();
    assert_eq!(best_among(Goal::Farthest, &v), first);
    v.rotate_left(1);
    assert_eq!(best_among(Goal::Farthest, &v), first);
    assert_eq!(first, Some(cand(2, 2, 2, 6)));
}

#[test]
fn winner_key_bounds_every_candidate() {
    let v = vec![
        cand(0, 0, 9, 40),
        cand(0, 9, 0, 73),
        cand(9, 0, 0, 12),
        cand(9, 9, 0, 73),
    ];
    let far = best_among(Goal::Farthest, &v).unwrap();
    let near = best_among(Goal::Nearest, &v).unwrap();
    for c in &v {
        assert!(c.key <= far.key);
        assert!(near.key <= c.key);
    }
    assert_eq!(far, cand(0, 9, 0, 73));
    assert_eq!(near, cand(9, 0, 0, 12));
}

#[test]
fn empty_scan_finds_nothing() {
    assert_eq!(best_among(Goal::Farthest, &vec![]), None);
    assert_eq!(Best::new(Goal::Nearest).merge(Best::new(Goal::Nearest)).found, None);
}

#[test]
fn maximin_key_is_smallest_distance() {
    assert_eq!(maximin_key(&vec![7, 3, 9]), 3);
    assert_eq!(maximin_key(&vec![42]), 42);
    assert_eq!(maximin_key(&vec![]), u64::MAX);
    assert_eq!(
        maximin_key(&vec![dist_key(1.0), dist_key(1.178988628052311)]),
        dist_key(1.0)
    );
}
