use autovideo::interval::{clamp, contract_margin, expand_margin, IntervalError, TimeInterval};
use autovideo::keep::compute_keep_ranges;
use autovideo::reconcile::{map_to_edited, PointRemoved};

fn iv(start: u64, end: u64) -> TimeInterval {
    TimeInterval::new(start, end)
}

fn total(rs: &[TimeInterval]) -> u64 {
    rs.iter().map(|r| r.end - r.start).sum()
}

#[test]
fn scenario_two_silences_with_margin() {
    let silences = vec![iv(2_000_000, 3_000_000), iv(5_000_000, 5_400_000)];
    let r = compute_keep_ranges(&silences, 10_000_000, 200_000);
    assert_eq!(
        r,
        vec![iv(0, 2_200_000), iv(2_800_000, 5_200_000), iv(5_200_000, 10_000_000)]
    );
}

#[test]
fn scenario_no_silences_keeps_everything() {
    let r = compute_keep_ranges(&Vec::new(), 7_500_000, 200_000);
    assert_eq!(r, vec![iv(0, 7_500_000)]);
}

#[test]
fn keep_ranges_are_ordered_and_positive() {
    let silences = vec![
        iv(0, 400_000),
        iv(1_000_000, 1_100_000),
        iv(1_150_000, 3_000_000),
        iv(8_000_000, 12_000_000),
    ];
    let r = compute_keep_ranges(&silences, 10_000_000, 100_000);
    for k in &r {
        assert!(k.start < k.end);
        assert!(k.end <= 10_000_000);
    }
    for w in r.windows(2) {
        assert!(w[0].end <= w[1].start);
    }
}

#[test]
fn reducer_is_deterministic() {
    let silences = vec![iv(1_000_000, 2_000_000), iv(4_000_000, 4_900_000)];
    let a = compute_keep_ranges(&silences, 6_000_000, 150_000);
    let b = compute_keep_ranges(&silences, 6_000_000, 150_000);
    assert_eq!(a, b);
}

#[test]
fn larger_margin_keeps_more() {
    let silences = vec![iv(1_000_000, 2_000_000), iv(2_100_000, 4_000_000), iv(6_000_000, 6_300_000)];
    let mut last = 0;
    for m in [0u64, 50_000, 100_000, 200_000, 500_000, 2_000_000] {
        let kept = total(&compute_keep_ranges(&silences, 8_000_000, m));
        assert!(kept >= last);
        last = kept;
    }
}

#[test]
fn coverage_adds_up_to_duration() {
    let silences = vec![iv(1_000_000, 2_000_000), iv(3_000_000, 3_300_000), iv(9_000_000, 10_000_000)];
    let kept0 = total(&compute_keep_ranges(&silences, 10_000_000, 0));
    assert_eq!(kept0 + total(&silences), 10_000_000);
    // With a margin, each silence removes its span less the margin at both edges.
    let kept = total(&compute_keep_ranges(&silences, 10_000_000, 200_000));
    let removed = 600_000 + 0 + 600_000;
    assert_eq!(kept + removed, 10_000_000);
}

#[test]
fn silence_at_the_very_end_drops_the_tail() {
    let r = compute_keep_ranges(&vec![iv(9_000_000, 10_000_000)], 10_000_000, 0);
    assert_eq!(r, vec![iv(0, 9_000_000)]);
}

#[test]
fn margin_past_the_end_is_clamped() {
    let r = compute_keep_ranges(&vec![iv(9_900_000, 10_500_000)], 10_000_000, 200_000);
    assert_eq!(r, vec![iv(0, 10_000_000)]);
}

#[test]
fn clamp_truncates_and_rejects_empty() {
    assert_eq!(clamp(iv(5, 50), 10, 40), Ok(iv(10, 40)));
    assert_eq!(clamp(iv(0, 10), 10, 40), Err(IntervalError::DegenerateInterval));
    assert_eq!(clamp(iv(45, 50), 10, 40), Err(IntervalError::DegenerateInterval));
}

#[test]
fn expand_margin_widens_then_clamps() {
    assert_eq!(expand_margin(iv(100, 200), 30, 0, 1_000), Ok(iv(70, 230)));
    assert_eq!(expand_margin(iv(10, 200), 30, 0, 210), Ok(iv(0, 210)));
    assert_eq!(expand_margin(iv(300, 400), 10, 0, 100), Err(IntervalError::DegenerateInterval));
}

#[test]
fn contract_margin_shrinks_or_gives_up() {
    assert_eq!(contract_margin(iv(100, 200), 30), Some(iv(130, 170)));
    assert_eq!(contract_margin(iv(100, 200), 50), None);
    assert_eq!(contract_margin(iv(100, 201), 50), Some(iv(150, 151)));
    assert_eq!(contract_margin(iv(100, 100), 0), None);
}

#[test]
fn map_to_edited_inside_ranges() {
    let keep = vec![iv(0, 2_200_000), iv(2_800_000, 5_200_000), iv(5_200_000, 10_000_000)];
    assert_eq!(map_to_edited(1_000_000, &keep), Ok(1_000_000));
    assert_eq!(map_to_edited(3_000_000, &keep), Ok(2_400_000));
    assert_eq!(map_to_edited(5_200_000, &keep), Ok(4_600_000));
    assert_eq!(map_to_edited(10_000_000, &keep), Ok(9_400_000));
}

#[test]
fn map_to_edited_in_a_cut() {
    let keep = vec![iv(0, 2_200_000), iv(2_800_000, 5_200_000)];
    assert_eq!(
        map_to_edited(2_300_000, &keep),
        Err(PointRemoved { gap: 1, nearest_boundary: Some(2_200_000) })
    );
    assert_eq!(
        map_to_edited(2_700_000, &keep),
        Err(PointRemoved { gap: 1, nearest_boundary: Some(2_800_000) })
    );
    assert_eq!(
        map_to_edited(2_500_000, &keep),
        Err(PointRemoved { gap: 1, nearest_boundary: Some(2_200_000) })
    );
    assert_eq!(
        map_to_edited(6_000_000, &keep),
        Err(PointRemoved { gap: 2, nearest_boundary: Some(5_200_000) })
    );
    assert_eq!(
        map_to_edited(5, &Vec::new()),
        Err(PointRemoved { gap: 0, nearest_boundary: None })
    );
}

#[test]
fn map_to_edited_before_first_range() {
    let keep = vec![iv(1_000_000, 2_000_000)];
    assert_eq!(
        map_to_edited(500_000, &keep),
        Err(PointRemoved { gap: 0, nearest_boundary: Some(1_000_000) })
    );
}
