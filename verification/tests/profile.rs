use strata_core::profile::{
    aggregates, decode, ColumnKind, ProfileColumn, Slot, StatKey,
};

fn col(name: &str, kind: ColumnKind) -> ProfileColumn {
    ProfileColumn { name: name.to_string(), kind }
}

fn describe(slots: &[Slot]) -> Vec<String> {
    slots
        .iter()
        .map(|s| match s {
            Slot::Rows => "rows".to_string(),
            Slot::NonNull { name } => format!("nonnull {name}"),
            Slot::Stat { name, key } => format!("{key:?} {name}"),
        })
        .collect()
}

#[test]
fn each_kind_gets_its_statistics_after_its_non_null_count() {
    let slots = aggregates(&[
        col("n", ColumnKind::Num),
        col("s", ColumnKind::Str),
        col("b", ColumnKind::Bool),
        col("l", ColumnKind::List),
    ]);
    assert_eq!(
        describe(&slots),
        vec![
            "rows",
            "nonnull n",
            "Distinct n",
            "Min n",
            "Max n",
            "Mean n",
            "Median n",
            "nonnull s",
            "Distinct s",
            "Min s",
            "Max s",
            "nonnull b",
            "nonnull l",
        ]
    );
}

fn cells(values: &[Option<&str>]) -> Vec<Option<String>> {
    values.iter().map(|v| v.map(|t| t.to_string())).collect()
}

#[test]
fn nulls_derive_from_rows_and_a_null_cell_is_no_fact() {
    let cols = [col("n", ColumnKind::Num), col("t", ColumnKind::Ts)];
    let slots = aggregates(&cols);
    // rows, nonnull n, distinct, min, max, mean, median, nonnull t, distinct, min, max
    let row = cells(&[
        Some("10"),
        Some("7"),
        Some("5"),
        Some("1"),
        Some("9"),
        None,
        Some("4"),
        None,
        None,
        None,
        None,
    ]);
    let p = decode(&slots, Some(&row), &cols).expect("decoded");
    assert_eq!(p.rows, 10);
    assert_eq!(p.cols.len(), 1, "a column with nothing to say is left out");
    assert_eq!(p.cols[0].name, "n");
    let facts: Vec<(StatKey, &str)> =
        p.cols[0].facts.iter().map(|s| (s.key, s.text.as_str())).collect();
    assert_eq!(
        facts,
        vec![
            (StatKey::Nulls, "3"),
            (StatKey::Distinct, "5"),
            (StatKey::Min, "1"),
            (StatKey::Max, "9"),
            (StatKey::Median, "4"),
        ]
    );
    assert!(p.cols[0].facts.iter().all(|s| s.exact));
}

#[test]
fn no_result_row_is_refused() {
    let cols = [col("n", ColumnKind::Bool)];
    let slots = aggregates(&cols);
    assert_eq!(decode(&slots, None, &cols).err(), Some("profile returned no rows".to_string()));
}

#[test]
fn a_non_null_count_above_the_rows_gives_zero_nulls_and_a_short_row_is_read_as_far_as_it_goes() {
    let cols = [col("b", ColumnKind::Bool)];
    let slots = aggregates(&cols);
    let p = decode(&slots, Some(&cells(&[Some("2"), Some("5")])), &cols).expect("decoded");
    assert_eq!(p.cols[0].facts[0].text, "0");
    let p = decode(&slots, Some(&cells(&[Some("x")])), &cols).expect("decoded");
    assert_eq!(p.rows, 0);
    assert!(p.cols.is_empty());
}

use strata_core::profile::footer_stats;

#[test]
fn a_footer_null_count_equal_to_the_rows_says_nothing() {
    let facts = footer_stats(Some(10), Some(10), Some(("1".to_string(), true)), None);
    let keys: Vec<StatKey> = facts.iter().map(|s| s.key).collect();
    assert_eq!(keys, vec![StatKey::Min]);

    let facts = footer_stats(Some(10), Some(3), Some(("1".to_string(), true)), Some(("9".to_string(), false)));
    let shown: Vec<(StatKey, &str, bool)> =
        facts.iter().map(|s| (s.key, s.text.as_str(), s.exact)).collect();
    assert_eq!(
        shown,
        vec![(StatKey::Nulls, "3", true), (StatKey::Min, "1", true), (StatKey::Max, "9", false)]
    );
    assert!(footer_stats(None, None, None, None).is_empty());
    assert_eq!(footer_stats(None, Some(0), None, None)[0].text, "0");
}
