use imbue::DataPoint;
use imbue_engine::data::{Sample, Strategy};
use imbue_engine::engine::{fill, fill_checked};

fn sample(pos: i64, value: f64) -> Sample {
    Sample::new(pos, DataPoint::new(pos as f64, value))
}

fn scenario() -> Vec<Sample> {
    vec![sample(1, 1.0), sample(3, 3.0), sample(5, 5.0)]
}

fn positions(out: &[Sample]) -> Vec<i64> {
    out.iter().map(|s| s.pos).collect()
}

fn values(out: &[Sample]) -> Vec<f64> {
    out.iter().map(|s| s.point.y).collect()
}

#[test]
fn test_average_imbue() {
    let out = fill(&scenario(), Strategy::Average);
    assert_eq!(positions(&out), vec![2, 4]);
    assert_eq!(values(&out), vec![2.0, 4.0]);
}

#[test]
fn test_zeroed_imbue() {
    let out = fill(&scenario(), Strategy::Zeroed);
    assert_eq!(positions(&out), vec![2, 4]);
    assert_eq!(values(&out), vec![0.0, 0.0]);
}

#[test]
fn test_last_known_imbue() {
    let out = fill(&scenario(), Strategy::LastKnown);
    assert_eq!(positions(&out), vec![2, 4]);
    assert_eq!(values(&out), vec![1.0, 3.0]);
}

#[test]
fn test_empty_input_yields_empty() {
    let series: Vec<Sample> = vec![];
    assert!(fill(&series, Strategy::Average).is_empty());
    assert!(fill(&series, Strategy::Zeroed).is_empty());
    assert!(fill(&series, Strategy::LastKnown).is_empty());
}

#[test]
fn test_single_sample_yields_empty() {
    let series = vec![sample(7, 42.5)];
    assert!(fill(&series, Strategy::Average).is_empty());
    assert!(fill(&series, Strategy::Zeroed).is_empty());
    assert!(fill(&series, Strategy::LastKnown).is_empty());
}

#[test]
fn test_gap_free_input_yields_empty() {
    let series = vec![sample(2, 1.0), sample(3, -1.0), sample(4, 6.0)];
    assert!(fill(&series, Strategy::Average).is_empty());
    assert!(fill(&series, Strategy::Zeroed).is_empty());
    assert!(fill(&series, Strategy::LastKnown).is_empty());
}

#[test]
fn test_average_unit_gap_is_exact_mean() {
    let series = vec![sample(10, 1.5), sample(12, 2.5)];
    let out = fill(&series, Strategy::Average);
    assert_eq!(positions(&out), vec![11]);
    assert_eq!(values(&out), vec![2.0]);
}

#[test]
fn test_average_multi_step_gap_is_flat() {
    let series = vec![sample(1, 1.0), sample(4, 4.0)];
    let out = fill(&series, Strategy::Average);
    assert_eq!(positions(&out), vec![2, 3]);
    assert_eq!(values(&out), vec![2.5, 2.5]);
}

#[test]
fn test_zeroed_ignores_neighbor_values() {
    let series = vec![sample(0, -7.25), sample(3, 9.5)];
    let out = fill(&series, Strategy::Zeroed);
    assert_eq!(positions(&out), vec![1, 2]);
    assert_eq!(values(&out), vec![0.0, 0.0]);
}

#[test]
fn test_last_known_holds_value_across_each_gap() {
    let series = vec![sample(0, 7.5), sample(3, 1.25), sample(5, -2.0)];
    let out = fill(&series, Strategy::LastKnown);
    assert_eq!(positions(&out), vec![1, 2, 4]);
    assert_eq!(values(&out), vec![7.5, 7.5, 1.25]);
}

#[test]
fn test_negative_positions() {
    let series = vec![sample(-3, -3.0), sample(0, 0.0)];
    let out = fill(&series, Strategy::Average);
    assert_eq!(positions(&out), vec![-2, -1]);
    assert_eq!(values(&out), vec![-1.5, -1.5]);
}

#[test]
fn test_positions_are_fresh_and_interior() {
    let series = vec![sample(-2, 0.5), sample(1, 1.0), sample(6, 3.0)];
    for strategy in [Strategy::Average, Strategy::Zeroed, Strategy::LastKnown] {
        let out = fill(&series, strategy);
        for s in &out {
            assert!(-2 < s.pos && s.pos < 6);
            assert!(series.iter().all(|o| o.pos != s.pos));
        }
    }
}

#[test]
fn test_output_is_sorted_ascending() {
    let series = vec![sample(-2, 0.5), sample(1, 1.0), sample(6, 3.0)];
    for strategy in [Strategy::Average, Strategy::Zeroed, Strategy::LastKnown] {
        let out = fill(&series, strategy);
        let pos = positions(&out);
        for w in pos.windows(2) {
            assert!(w[0] < w[1]);
        }
    }
}

#[test]
fn test_fill_checked_rejects_unsorted() {
    let series = vec![sample(3, 3.0), sample(1, 1.0)];
    assert!(fill_checked(&series, Strategy::Average).is_none());
}

#[test]
fn test_fill_checked_rejects_duplicate_positions() {
    let series = vec![sample(1, 1.0), sample(1, 2.0)];
    assert!(fill_checked(&series, Strategy::Zeroed).is_none());
}

#[test]
fn test_fill_checked_accepts_sorted() {
    let out = fill_checked(&scenario(), Strategy::LastKnown).unwrap();
    assert_eq!(positions(&out), vec![2, 4]);
    assert_eq!(values(&out), vec![1.0, 3.0]);
}

#[test]
fn test_refill_of_completed_series_is_empty() {
    for strategy in [Strategy::Average, Strategy::Zeroed, Strategy::LastKnown] {
        let mut completed: Vec<(i64, f64)> = scenario()
            .iter()
            .map(|s| (s.pos, s.point.y))
            .chain(fill(&scenario(), strategy).iter().map(|s| (s.pos, s.point.y)))
            .collect();
        completed.sort_by_key(|&(pos, _)| pos);
        let merged: Vec<Sample> = completed.iter().map(|&(pos, v)| sample(pos, v)).collect();
        for again in [Strategy::Average, Strategy::Zeroed, Strategy::LastKnown] {
            assert!(fill(&merged, again).is_empty());
        }
    }
}

#[test]
fn test_average_with_nan_neighbor_fills_nan() {
    let series = vec![sample(1, f64::NAN), sample(3, 3.0)];
    let out = fill(&series, Strategy::Average);
    assert_eq!(positions(&out), vec![2]);
    assert!(out[0].point.y.is_nan());
}

#[test]
fn test_average_of_opposite_infinities_fills_nan() {
    let series = vec![sample(1, f64::INFINITY), sample(3, f64::NEG_INFINITY)];
    let out = fill(&series, Strategy::Average);
    assert_eq!(positions(&out), vec![2]);
    assert!(out[0].point.y.is_nan());
}

#[test]
fn test_average_of_equal_infinities_is_that_infinity() {
    let series = vec![sample(1, f64::NEG_INFINITY), sample(4, f64::NEG_INFINITY)];
    let out = fill(&series, Strategy::Average);
    assert_eq!(positions(&out), vec![2, 3]);
    assert_eq!(values(&out), vec![f64::NEG_INFINITY, f64::NEG_INFINITY]);
}

#[test]
fn test_sample_reports_its_value_carrier() {
    let s = Sample::new(9, DataPoint::new(9.0, -0.125));
    assert_eq!(s.pos, 9);
    assert_eq!(s.point().y, -0.125);
}
