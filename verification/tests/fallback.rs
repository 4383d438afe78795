//! The legacy marker-file reconciliation plan and marker file names.

use numtracker::numtracker::{
    marker_file_name, parse_marker_file_name, plan_fallback_allocation,
};

#[test]
fn plan_without_markers_counts_up_from_db() {
    let plan = plan_fallback_allocation(5, None);
    assert_eq!(plan.next_number, 6);
    assert_eq!(plan.create_marker, 6);
    assert_eq!(plan.delete_marker, None);
}

#[test]
fn plan_deletes_only_the_preceding_marker() {
    // Directory agrees with the database: the old marker goes.
    let plan = plan_fallback_allocation(5, Some(5));
    assert_eq!(plan.next_number, 6);
    assert_eq!(plan.delete_marker, Some(5));
    // Directory is ahead: follow it and delete its marker.
    let plan = plan_fallback_allocation(5, Some(7));
    assert_eq!(plan.next_number, 8);
    assert_eq!(plan.delete_marker, Some(7));
}

#[test]
fn plan_keeps_gap_visible_when_db_is_ahead() {
    let plan = plan_fallback_allocation(9, Some(3));
    assert_eq!(plan.next_number, 10);
    assert_eq!(plan.create_marker, 10);
    // The stale marker 3 stays so the discontinuity can be seen.
    assert_eq!(plan.delete_marker, None);
}

#[test]
fn marker_names_round_trip() {
    assert_eq!(marker_file_name(123, "i22"), "123.i22");
    assert_eq!(parse_marker_file_name("123.i22", "i22"), Some(123));
    assert_eq!(parse_marker_file_name("0.ext", "ext"), Some(0));
}

#[test]
fn foreign_marker_names_are_ignored() {
    assert_eq!(parse_marker_file_name("123.b21", "i22"), None);
    assert_eq!(parse_marker_file_name("123", "i22"), None);
    assert_eq!(parse_marker_file_name("x23.i22", "i22"), None);
    assert_eq!(parse_marker_file_name(".i22", "i22"), None);
    assert_eq!(parse_marker_file_name("99999999999.i22", "i22"), None);
}
