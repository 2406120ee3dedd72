use strata_core::chart::{auto_bins, bin_count, over_cap, rows_fetch_limit};

#[test]
fn an_open_bin_count_is_bounded_both_ways() {
    assert_eq!(auto_bins(1), 6);
    assert_eq!(auto_bins(100), 10);
    assert_eq!(auto_bins(10_000_000), 24);
}

#[test]
fn the_open_bin_count_rounds_the_root_up() {
    assert_eq!(auto_bins(0), 6);
    assert_eq!(auto_bins(-5), 6);
    assert_eq!(auto_bins(36), 6);
    assert_eq!(auto_bins(37), 7);
    assert_eq!(auto_bins(529), 23);
    assert_eq!(auto_bins(530), 24);
}

#[test]
fn a_requested_bin_count_is_clamped() {
    assert_eq!(bin_count(Some(0), 100), 1);
    assert_eq!(bin_count(Some(50), 100), 50);
    assert_eq!(bin_count(Some(5000), 100), 200);
    assert_eq!(bin_count(None, 100), 10);
}

use strata_core::chart::{
    pivot, row_index_labels, rows_request, series_names, tally_bins, ChartColumn,
};

fn result_cols() -> Vec<ChartColumn> {
    vec![
        ChartColumn { name: "g".to_string(), numeric: false, type_text: "Utf8".to_string() },
        ChartColumn { name: "v".to_string(), numeric: true, type_text: "Int64".to_string() },
    ]
}

fn ys(names: &[&str]) -> Vec<String> {
    names.iter().map(|n| n.to_string()).collect()
}

#[test]
fn encoding_mistakes_are_named_here() {
    let cols = result_cols();
    let err = rows_request(&cols, Some("g"), &ys(&[]), None).expect_err("no Y");
    assert!(err.contains("Y column"), "{err}");

    let err = rows_request(&cols, Some("g"), &ys(&["g"]), None).expect_err("text Y");
    assert!(err.contains("not a measure"), "{err}");

    let err = rows_request(&cols, None, &ys(&["v"]), Some("g")).expect_err("series, no X");
    assert!(err.contains("X column"), "{err}");

    let err = rows_request(&cols, Some("g"), &ys(&["v"]), Some("g")).expect_err("X == series");
    assert!(err.contains("'g'"), "{err}");
    assert!(!err.contains("Schema error"), "{err}");

    let err = rows_request(&cols, Some("nope"), &ys(&["v"]), None).expect_err("missing");
    assert!(err.contains("'nope'"), "{err}");
}

#[test]
fn refusals_use_the_exact_wording() {
    let cols = result_cols();
    assert_eq!(
        rows_request(&cols, None, &ys(&[]), None),
        Err("a chart needs at least one Y column".to_string())
    );
    assert_eq!(
        rows_request(&cols, None, &ys(&["g"]), None),
        Err("Utf8 is not a measure a chart can plot".to_string())
    );
    assert_eq!(
        rows_request(&cols, None, &ys(&["w"]), None),
        Err("no column 'w' in this result".to_string())
    );
    assert_eq!(
        rows_request(&cols, Some("g"), &ys(&["v"]), Some("g")),
        Err("'g' cannot be both the category and the series".to_string())
    );
}

#[test]
fn a_column_can_be_both_x_and_y() {
    let mut cols = result_cols();
    cols.push(ChartColumn { name: "r".to_string(), numeric: false, type_text: "Utf8".to_string() });
    assert_eq!(
        rows_request(&cols, Some("v"), &ys(&["v"]), None),
        Ok(vec!["v".to_string()])
    );
    assert_eq!(
        rows_request(&cols, Some("g"), &ys(&["v", "v"]), Some("r")),
        Ok(vec!["g".to_string(), "r".to_string(), "v".to_string()])
    );
}

#[test]
fn a_series_column_pivots_long_to_wide() {
    // m: jan jan feb / region: eu us eu
    let p = pivot(&[1, 1, 2], &[7, 8, 7]).expect("no duplicate cell");
    assert_eq!(p.categories, vec![0, 2]);
    assert_eq!(p.slots, vec![0, 1]);
    assert_eq!(p.cells, vec![vec![Some(0), Some(2)], vec![Some(1), None]]);
}

#[test]
fn a_duplicate_pivot_cell_refuses_rather_than_keeping_either_row() {
    assert!(pivot(&[1, 1], &[3, 3]).is_none());
    assert!(pivot(&[1, 2, 1], &[3, 4, 3]).is_none());
    assert!(pivot(&[1, 2, 1], &[3, 4, 4]).is_some());
}

#[test]
fn an_empty_result_pivots_to_nothing() {
    let p = pivot(&[], &[]).expect("empty");
    assert!(p.categories.is_empty());
    assert!(p.slots.is_empty());
    assert!(p.cells.is_empty());
}

#[test]
fn a_series_split_and_several_ys_both_name_the_series() {
    let names = series_names(&ys(&["a", "b"]), &ys(&["eu", "us"]));
    assert_eq!(names, vec!["eu: a", "us: a", "eu: b", "us: b"]);
    let names = series_names(&ys(&["a"]), &ys(&["eu", "us"]));
    assert_eq!(names, vec!["eu", "us"]);
}

#[test]
fn no_x_charts_against_the_row_index() {
    assert_eq!(row_index_labels(3), vec!["1", "2", "3"]);
    assert!(row_index_labels(0).is_empty());
}

#[test]
fn bins_count_their_rows_and_the_top_edge_lands_in_the_last() {
    let counts = tally_bins(3, &[(0, 2), (1, 5), (3, 1), (2, 4), (1, -7)]);
    assert_eq!(counts, vec![2, 5, 5]);
    assert_eq!(tally_bins(2, &[]), vec![0, 0]);
}

#[test]
fn null_is_a_label_never_a_key() {
    // A NULL and a literal "(null)" are two keys that render alike: two categories, and no
    // row goes missing.
    let p = pivot(&[1, 2], &[7, 7]).expect("two cells");
    assert_eq!(p.categories, vec![0, 1]);
    assert_eq!(p.cells, vec![vec![Some(0), Some(1)]]);
    let p = pivot(&[1, 2], &[7, 8]).expect("two cells");
    assert_eq!(p.slots, vec![0, 1], "two series that render alike");
}

#[test]
fn a_histogram_bins_uniformly_and_loses_no_finite_row() {
    // Ten values 0..=9 in five bins of width 1.8: the maximum divides out to the bin count
    // and lands in the last bin.
    let grouped: Vec<(usize, i64)> = vec![(0, 2), (1, 2), (2, 2), (3, 2), (4, 1), (5, 1)];
    let counts = tally_bins(5, &grouped);
    assert_eq!(counts, vec![2, 2, 2, 2, 2]);
    assert_eq!(counts.iter().sum::<u64>(), 10);
}

#[test]
fn a_rows_chart_reads_one_row_past_its_cap() {
    assert_eq!(rows_fetch_limit(5000), 5001);
    assert_eq!(rows_fetch_limit(usize::MAX), usize::MAX);
    assert!(!over_cap(5000, 5000), "a result that fills the cap is drawn");
    assert!(over_cap(5001, 5000));
}
