use diff_summary::binary64::Binary64;
use diff_summary::diff::diff_abs;
use diff_summary::diff_part_summary::DiffPartSummary;
use diff_summary::diff_summary::{DiffSummary, ValueTexts};

fn b(x: f64) -> Binary64 {
    Binary64::from_bits(x.to_bits())
}

fn f(v: Binary64) -> f64 {
    f64::from_bits(v.to_bits())
}

fn add_abs(summary: &mut DiffSummary, x: f64, y: f64, index: usize) {
    let outcome = diff_abs(b(x), b(y), b(x - y));
    summary.add(b(x), b(y), index, outcome, f(outcome.0).log10() as isize);
}

fn texts(summary: &DiffSummary) -> ValueTexts {
    let worst = summary.summary_diff();
    let sign = summary.summary_sign();
    ValueTexts {
        worst_x: format!("{:e}", f(worst.sample_x)),
        worst_y: format!("{:e}", f(worst.sample_y)),
        worst: format!("{:e}", f(summary.worst_diff())),
        tolerance: format!("{:e}", f(summary.allow_diff())),
        sign_x: format!("{:e}", f(sign.sample_x)),
        sign_y: format!("{:e}", f(sign.sample_y)),
    }
}

fn simple_summary() -> DiffSummary {
    let data = &[(0.0, 1.0), (2.0, 1.0), (1.0, 10.0), (0.1, -0.1), (f64::NAN, f64::NAN)];
    let mut summary = DiffSummary::new("simple", b(1.0), false, 4);
    for (i, item) in data.iter().enumerate() {
        add_abs(&mut summary, item.0, item.1, i);
    }
    summary
}

#[test]
fn test1() {
    let data = &[(0.0, 1.0), (2.0, 1.0), (1.0, 10.0), (0.1, -0.1), (f64::NAN, f64::NAN)];
    let mut summary = DiffSummary::new("simple", b(1.0), false, 4);
    for (i, item) in data.iter().enumerate() {
        add_abs(&mut summary, item.0, item.1, i);
    }
    println!();
    println!("{}", summary.histogram().render());
    assert!(!summary.is_ok());
}

#[test]
fn test2() {
    let data = &[
        (0.0, 0.0, 1.0, 1.0),
        (0.0, -0.0, 2.1, 2.1),
        (-0.0, 0.0, -5.3, -5.3),
        (-0.0, -0.0, 504.0, 504.0),
        (f64::NAN, f64::NAN, 1.2, 1.21),
        (f64::NAN, -f64::NAN, 1.2, 1.201),
        (-f64::NAN, f64::NAN, 1.2, 1.2001),
        (-f64::NAN, -f64::NAN, 1.2, 1.20001),
        (f64::INFINITY, f64::INFINITY, 0.0, 1.1e-7),
        (f64::INFINITY, f64::NEG_INFINITY, 0.0, 2e-8),
        (f64::NEG_INFINITY, f64::INFINITY, 0.0, -6e-9),
        (f64::NEG_INFINITY, f64::NEG_INFINITY, 0.0, 7e-10),
        (f64::NAN, f64::INFINITY, 0.0, -4e-11),
        (f64::NEG_INFINITY, -f64::NAN, 0.0, 1e-6),
        (f64::INFINITY, -f64::NAN, 0.0, 1e-12),
        (17.0, f64::NAN, 0.0, 1e-13),
        (f64::INFINITY, 23.0, 0.0, 1e-14),
        (0.0, 3e-8, 0.0, 2e-15),
        (-6.7e-19, 1.2e-32, 0.0, 1e-15),
        (-1.1e-2, -0.0, 0.0, 1e-16),
        (f64::MIN_POSITIVE, 0.0, 0.0, 1e-17),
        (5e200, 5.001e200, 0.0, -1e-17),
        (f64::MAX, f64::MIN, 0.0, 1e-18),
    ];

    let mut summaries = DiffSummary::new_vec(4, &[
        ("data0", b(2e-8), false),
        ("data1", b(1e-6), true),
        ("data2", b(1e-9), false),
        ("data3", b(1e-9), false),
    ]);
    for (i, item) in data.iter().enumerate() {
        add_abs(&mut summaries[0], item.0, item.1, i);
        add_abs(&mut summaries[1], item.2, item.3, i);
        add_abs(&mut summaries[2], item.0, item.0, i);
    }

    println!();
    for summary in &summaries {
        println!("{}: {}", summary.name(), summary.histogram().render());
    }
    assert_eq!(summaries[0].num_total(), data.len());
    assert_eq!(summaries[1].num_total(), data.len());
    assert!(summaries[0].num_diff_fail() > summaries[1].num_diff_fail());
    assert_eq!(summaries[2].num_total(), data.len());
    assert_eq!(summaries[2].summary_diff().count, 0);
    assert_eq!(summaries[2].summary_sign().count, 0);
    assert_eq!(summaries[3].num_total(), 0);
    assert!(!summaries[0].is_ok());
    assert!(!summaries[1].is_ok());
    assert!(summaries[2].is_ok());
    assert!(summaries[3].is_ok());
}

#[test]
fn single_pair_beyond_tolerance_fails() {
    let mut summary = DiffSummary::new("one", b(1.0), true, 3);
    add_abs(&mut summary, 1.0, 3.0, 0);
    assert!(!summary.is_ok());
    assert!(!summary.within_tolerance());
    assert!(summary.sign_ok());
    assert_eq!(summary.num_diff_fail(), 1);
    assert_eq!(f(summary.worst_diff()), 2.0);
}

#[test]
fn equal_pairs_stay_ok() {
    let mut summary = DiffSummary::new("equal", b(0.0), false, 3);
    for (i, &x) in [0.0, 1.5, -2.0, 1e300, -0.0, f64::MIN_POSITIVE].iter().enumerate() {
        add_abs(&mut summary, x, x, i);
    }
    assert!(summary.is_ok());
    assert_eq!(summary.num_total(), 6);
    assert_eq!(summary.num_diff_fail(), 0);
    assert_eq!(summary.summary_diff().count, 0);
    assert_eq!(summary.histogram().render(), "zero 100%");
}

#[test]
fn end_to_end_tracks_worst_and_first_sign_change() {
    let data = &[(0.0, 1.0), (2.0, 1.0), (1.0, 10.0), (0.1, -0.1), (f64::NAN, f64::NAN)];
    let mut summary = DiffSummary::new("simple", b(1.0), false, 4);
    for (i, item) in data.iter().enumerate() {
        add_abs(&mut summary, item.0, item.1, i);
        assert!(summary.num_diff_fail() <= summary.num_total());
    }
    assert!(!summary.within_tolerance());
    assert!(!summary.sign_ok());
    assert_eq!(summary.num_total(), 5);
    assert_eq!(summary.num_diff_fail(), 1);
    let worst = summary.summary_diff();
    assert_eq!(worst.count, 4);
    assert_eq!((f(worst.sample_x), f(worst.sample_y), worst.sample_index), (1.0, 10.0, 2));
    assert_eq!(f(summary.worst_diff()), 9.0);
    let sign = summary.summary_sign();
    assert_eq!(sign.count, 1);
    assert_eq!(sign.sample_index, 3);
    assert_eq!(summary.histogram().render(), "zero 20%, e0 80%");
}

#[test]
fn nan_difference_is_worst_and_fails() {
    let mut summary = DiffSummary::new("nan", b(1e10), true, 3);
    add_abs(&mut summary, 1.0, f64::INFINITY, 0);
    add_abs(&mut summary, 1.0, f64::NAN, 1);
    add_abs(&mut summary, 1.0, 5.0, 2);
    assert!(f(summary.worst_diff()).is_nan());
    assert_eq!(summary.summary_diff().sample_index, 1);
    assert_eq!(summary.num_diff_fail(), 2);
    assert!(!summary.is_ok());
    assert_eq!(summary.histogram().render(), "e0 33%, inf 33%, nan 33%");
}

#[test]
fn part_summary_keeps_first_unless_forced() {
    let mut part = DiffPartSummary::new();
    assert!(f(part.sample_x).is_nan() && f(part.sample_y).is_nan());
    part.add(b(1.0), b(2.0), 7, false);
    part.add(b(3.0), b(4.0), 8, false);
    assert_eq!((f(part.sample_x), f(part.sample_y), part.sample_index, part.count), (1.0, 2.0, 7, 2));
    part.add(b(5.0), b(6.0), 9, true);
    assert_eq!((f(part.sample_x), f(part.sample_y), part.sample_index, part.count), (5.0, 6.0, 9, 3));
}

#[test]
fn report_of_simple_summary() {
    let summary = simple_summary();
    assert_eq!(
        summary.render(&texts(&summary)),
        "simple: count 5, worst index 2 1e0 vs 1e1 diff 9e0, 20% failed tolerance 1e0, zero 20%, e0 80%, sign diffs 20% first index 3 1e-1 vs -1e-1"
    );
}

#[test]
fn failure_messages_of_simple_summary() {
    let summary = simple_summary();
    let t = texts(&summary);
    assert_eq!(
        summary.tolerance_failure(&t).unwrap(),
        "assert failed item 2, simple: 1e0 vs 1e1 diff abs 9e0 outside inclusive 1e0"
    );
    assert_eq!(
        summary.sign_failure(&t).unwrap(),
        "assert failed item 3, simple: 1e-1 vs -1e-1 sign difference disallowed."
    );
}

#[test]
fn reports_of_empty_and_all_zero_summaries() {
    let empty = DiffSummary::new("", b(1e-9), false, 4);
    assert_eq!(empty.render(&texts(&empty)), "count 0");
    assert!(empty.tolerance_failure(&texts(&empty)).is_none());
    assert!(empty.sign_failure(&texts(&empty)).is_none());
    let mut zero = DiffSummary::new("zero", b(0.5), true, 4);
    add_abs(&mut zero, 2.0, 2.0, 0);
    add_abs(&mut zero, f64::NAN, -f64::NAN, 1);
    assert_eq!(
        zero.render(&texts(&zero)),
        "zero: count 2, zero 100%, 0% failed tolerance 5e-1, sign diffs 50% first index 1 NaN vs -NaN"
    );
    assert!(zero.sign_failure(&texts(&zero)).is_none());
}

#[test]
fn clone_is_independent() {
    let summary = simple_summary();
    let mut copy = summary.clone();
    add_abs(&mut copy, 0.0, 100.0, 5);
    assert_eq!(summary.num_total(), 5);
    assert_eq!(copy.num_total(), 6);
    assert_eq!(summary.histogram().render(), "zero 20%, e0 80%");
    assert_eq!(copy.histogram().render(), "zero 17%, e0 67%, e2 17%");
}
