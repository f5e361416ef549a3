use diff_summary::binary64::Binary64;
use diff_summary::log_histogram::{Bucket, LogHistogram};
use diff_summary::util::{help_sign, to_percent};

fn b(x: f64) -> Binary64 {
    Binary64::from_bits(x.to_bits())
}

fn add(histo: &mut LogHistogram, v: f64) {
    histo.add(b(v), v.log10() as isize);
}

fn get(reduced: &[Bucket], key: isize) -> (isize, isize, usize) {
    let found = reduced.iter().find(|bucket| bucket.key == key).unwrap();
    (found.exp_min, found.exp_max, found.count)
}

fn sample_histogram() -> LogHistogram {
    let mut map = std::collections::HashMap::new();
    map.insert(-300, 5);
    map.insert(-250, 4);
    map.insert(-100, 3);
    map.insert(-10, 2);
    map.insert(-7, 1);
    map.insert(-4, 100);
    map.insert(-1, 200);
    map.insert(0, 5000);
    map.insert(1, 500);
    map.insert(2, 100);
    map.insert(3, 9);
    map.insert(7, 8);
    map.insert(8, 2);
    map.insert(9, 3);
    map.insert(10, 7);
    map.insert(13, 2);
    let zeroes = 50000;
    let infs = 12;
    let nans = 4;

    let mut histo = LogHistogram::new(5);
    for _ in 0..zeroes {
        add(&mut histo, 0.0);
    }
    for _ in 0..infs {
        add(&mut histo, f64::INFINITY);
    }
    for _ in 0..nans {
        add(&mut histo, f64::NAN);
    }
    let ten: f64 = 10.0;
    for (exp, count) in map {
        let val = ten.powi(exp);
        for _ in 0..count {
            add(&mut histo, val);
        }
    }
    histo
}

#[test]
fn test_reduce() {
    let histo = sample_histogram();
    let histo_reduced = histo.reduced_histo();
    assert_eq!(histo_reduced.len(), 5);
    assert_eq!(get(&histo_reduced, -4), (-300, -4, 115));
    assert_eq!(get(&histo_reduced, -1), (-1, -1, 200));
    assert_eq!(get(&histo_reduced, 0), (0, 0, 5000));
    assert_eq!(get(&histo_reduced, 1), (1, 1, 500));
    assert_eq!(get(&histo_reduced, 2), (2, 13, 131));
}

#[test]
fn reduce_keeps_sum_order_and_coverage() {
    let histo = sample_histogram();
    let reduced = histo.reduced_histo();
    let sum: usize = reduced.iter().map(|bucket| bucket.count).sum();
    assert_eq!(sum, 5946);
    for pair in reduced.windows(2) {
        assert!(pair[0].exp_max < pair[1].exp_min);
    }
    for &k in &[-300, -250, -100, -10, -7, -4, -1, 0, 1, 2, 3, 7, 8, 9, 10, 13] {
        let spanning = reduced.iter().filter(|bucket| bucket.exp_min <= k && k <= bucket.exp_max).count();
        assert_eq!(spanning, 1, "{}", k);
    }
}

#[test]
fn reduce_below_cap_keeps_buckets() {
    let mut histo = LogHistogram::new(3);
    add(&mut histo, 5.0);
    add(&mut histo, 50.0);
    add(&mut histo, 50.0);
    let reduced = histo.reduced_histo();
    assert_eq!(reduced, vec![
        Bucket { key: 0, exp_min: 0, exp_max: 0, count: 1 },
        Bucket { key: 1, exp_min: 1, exp_max: 1, count: 2 },
    ]);
}

#[test]
fn reduce_ties_go_to_the_first_smallest_and_lower_neighbour() {
    let mut histo = LogHistogram::new(3);
    for &(v, n) in &[(1e1, 3), (1e2, 1), (1e3, 1), (1e4, 1)] {
        for _ in 0..n {
            add(&mut histo, v);
        }
    }
    // 1e2 is the first of the smallest; its neighbours hold 3 and 1, so it
    // joins 1e3.
    let reduced = histo.reduced_histo();
    assert_eq!(reduced, vec![
        Bucket { key: 1, exp_min: 1, exp_max: 1, count: 3 },
        Bucket { key: 3, exp_min: 2, exp_max: 3, count: 2 },
        Bucket { key: 4, exp_min: 4, exp_max: 4, count: 1 },
    ]);
}

#[test]
fn render_of_sample() {
    let histo = sample_histogram();
    assert_eq!(
        histo.render(),
        "zero 89%, e-300 to e-4 1%, e-1 1%, e0 9%, e1 1%, e2 to e13 1%, inf 1%, nan 1%"
    );
}

#[test]
fn render_skips_empty_counters() {
    let mut histo = LogHistogram::new(4);
    assert_eq!(histo.render(), "");
    add(&mut histo, 0.25);
    add(&mut histo, 0.0);
    add(&mut histo, 0.0);
    add(&mut histo, 0.0);
    assert_eq!(histo.render(), "zero 75%, e0 25%");
}

#[test]
fn truncated_exponent_puts_small_values_one_bucket_up() {
    let mut histo = LogHistogram::new(4);
    add(&mut histo, 0.05);
    add(&mut histo, 0.5);
    assert_eq!(histo.render(), "e-1 50%, e0 50%");
}

#[test]
fn percent_rounding() {
    assert_eq!(to_percent(0, 5), 0);
    assert_eq!(to_percent(1, 1000), 1);
    assert_eq!(to_percent(5, 1000), 1);
    assert_eq!(to_percent(999, 1000), 99);
    assert_eq!(to_percent(1000, 1000), 100);
    assert_eq!(to_percent(1, 8), 13);
    assert_eq!(to_percent(1, 3), 33);
    assert_eq!(to_percent(2, 3), 67);
    assert_eq!(to_percent(0, 0), 0);
}

#[test]
fn percent_is_monotonic_and_never_zero_or_full_by_rounding() {
    for total in [1usize, 7, 100, 199, 1000, 12345] {
        let mut last = 0;
        for part in 0..=total {
            let p = to_percent(part, total);
            assert!(p >= last);
            if part > 0 {
                assert!(p > 0);
            }
            if part != total {
                assert!(p != 100);
            }
            last = p;
        }
    }
}

#[test]
fn sign_prefix() {
    assert_eq!(help_sign(b(-0.0)), "-");
    assert_eq!(help_sign(b(-f64::NAN)), "-");
    assert_eq!(help_sign(b(0.0)), "");
    assert_eq!(help_sign(b(-1.0)), "");
    assert_eq!(help_sign(b(f64::NAN)), "");
}
