use strata_core::catalog::{plan_deps, PlanVisit};
use strata_core::catalog::{
    ascii_byte, is_glob, keys_in_pattern, no_files_url, parse_dtype, partition_key, register_error,
    short_type, ArrowType, SourceFacts, TableSpec, MAX_PASSTHROUGH,
};
use strata_core::external::{JsonRead, JsonShape, SourceFormat};

fn spec(name: &str, paths: &[&str], format: &str) -> TableSpec {
    TableSpec {
        name: name.into(),
        paths: paths.iter().map(|s| s.to_string()).collect(),
        format: SourceFormat::from_name(format),
        partitions: Vec::new(),
    }
}

fn array_spec(name: &str) -> TableSpec {
    TableSpec {
        format: SourceFormat::Json(JsonRead { shape: JsonShape::Array, ..JsonRead::new() }),
        ..spec(name, &[], "json")
    }
}

/// Facts for a failure that names no source.
fn none() -> SourceFacts {
    SourceFacts { path: String::new(), exists: false, is_file: false, holds_ext: None }
}

fn facts(path: &str, exists: bool, is_file: bool, holds_ext: Option<bool>) -> SourceFacts {
    SourceFacts { path: path.into(), exists, is_file, holds_ext }
}

fn no_files_at(url: &str) -> String {
    format!(
        "Error during planning: No files found at {url}. Cannot infer schema from an empty \
         location; either add data files or declare an explicit schema for the table."
    )
}

#[test]
fn a_path_that_globs_its_partition_keys_needs_no_listing() {
    assert_eq!(keys_in_pattern("/data/events/year=*/month=*/*.parquet"), vec!["year", "month"]);
}

#[test]
fn a_literal_partition_segment_is_a_root_and_declares_nothing() {
    assert!(keys_in_pattern("/data/events/year=2024/month=03/").is_empty());
}

#[test]
fn a_segment_whose_key_is_not_an_identifier_is_not_a_partition() {
    assert!(keys_in_pattern("/data/a b=*/x.parquet").is_empty());
    assert!(keys_in_pattern("/data/=*/x.parquet").is_empty());
    assert!(keys_in_pattern("/data/2024=*/x.parquet").is_empty());
    assert_eq!(partition_key("year=2024").as_deref(), Some("year"));
    assert_eq!(partition_key("_y2=1").as_deref(), Some("_y2"));
    assert_eq!(partition_key("a b=1"), None);
    assert_eq!(partition_key("year"), None);
    assert_eq!(keys_in_pattern("C:\\lake\\region=?\\f.csv"), vec!["region"]);
}

#[test]
fn a_pretty_printed_record_is_named_as_a_shape_problem() {
    let raw = "Arrow error: Json error: Not valid JSON: EOF while parsing an object at line 1 column 1";
    assert_eq!(
        register_error(&spec("signups", &[], "json"), ".json", raw, &none()),
        "Cannot read 'signups' as JSON: a record does not end on its line. \
         Set the JSON shape to array in Table Config, or use newline-delimited JSON."
    );
}

#[test]
fn a_top_level_array_never_carries_the_parsed_document() {
    let raw = "Arrow error: Json error: Expected JSON record to be an object, found Array \
               [Object {\"a\": Number(1)}, Object {\"a\": Number(2)}]";
    let msg = register_error(&spec("signups", &[], "json"), ".json", raw, &none());
    assert_eq!(
        msg,
        "Cannot read 'signups' as JSON: the source is a JSON array. \
         Set the JSON shape to array in Table Config, or use newline-delimited JSON."
    );
    assert!(!msg.contains("Number("), "the parsed value never reaches the user");
}

#[test]
fn a_non_object_record_names_what_was_found() {
    let raw = "Arrow error: Json error: Expected JSON record to be an object, found Number 3";
    assert_eq!(
        register_error(&spec("nums", &[], "json"), ".json", raw, &none()),
        "Cannot read 'nums' as JSON: a top-level Number is not a record. \
         Set the JSON shape to array in Table Config, or use newline-delimited JSON."
    );
}

#[test]
fn a_table_already_reading_arrays_is_not_told_to_set_the_shape_it_has() {
    let raw = "Arrow error: Json error: Expected JSON record to be an object, found Number 3";
    assert_eq!(
        register_error(&array_spec("nums"), ".json", raw, &none()),
        "Cannot read 'nums' as JSON: a top-level Number is not a record."
    );
}

#[test]
fn a_syntax_error_keeps_arrows_diagnosis() {
    let raw = "Arrow error: Json error: Not valid JSON: key must be a string at line 1 column 9";
    assert_eq!(
        register_error(&spec("bad", &[], "json"), ".json", raw, &none()),
        "Cannot read 'bad' as JSON: key must be a string at line 1 column 9"
    );
}

#[test]
fn a_missing_path_says_so_rather_than_calling_it_empty() {
    let p = "/tmp/strata/missing/nope.parquet";
    assert_eq!(
        register_error(
            &spec("t", &[p], "parquet"),
            ".parquet",
            &no_files_at(&format!("file://{p}")),
            &facts(p, false, false, None)
        ),
        format!("No source at '{p}'.")
    );
}

#[test]
fn a_file_whose_extension_does_not_match_says_which_extension_is_read() {
    let p = "/tmp/strata/ext/regions.csv";
    assert_eq!(
        register_error(
            &spec("regions", &[p], "parquet"),
            ".parquet",
            &no_files_at(&format!("file://{p}")),
            &facts(p, true, true, None)
        ),
        format!("Table 'regions' reads .parquet files, and '{p}' is not one.")
    );
}

#[test]
fn an_empty_directory_is_reported_as_holding_nothing_readable() {
    let p = "/tmp/strata/bare";
    assert_eq!(
        register_error(
            &spec("t", &[p], "parquet"),
            ".parquet",
            &no_files_at(&format!("file://{p}/")),
            &facts(p, true, false, Some(false))
        ),
        format!("No .parquet files under '{p}'.")
    );
}

#[test]
fn a_directory_that_does_hold_files_blames_the_partition_columns() {
    let p = "/tmp/strata/parts";
    let mut s = spec("events", &[p], "csv");
    s.partitions = vec![("year".into(), "Utf8".into()), ("month".into(), "Utf8".into())];
    assert_eq!(
        register_error(&s, ".csv", &no_files_at(&format!("file://{p}/")), &facts(p, true, false, Some(true))),
        format!("No .csv files under '{p}' match the partition columns 'year', 'month'.")
    );
    // A walk that gave up never claims emptiness.
    assert_eq!(
        register_error(&s, ".csv", &no_files_at(&format!("file://{p}/")), &facts(p, true, false, None)),
        format!("No .csv files under '{p}' match the partition columns 'year', 'month'.")
    );
}

#[test]
fn a_glob_only_claims_that_nothing_matched() {
    let g = "/tmp/strata/glob/**/*.parquet";
    assert_eq!(
        register_error(&spec("t", &[g], "parquet"), ".parquet", &no_files_at(g), &facts(g, false, false, None)),
        format!("No files matched '{g}'.")
    );
    assert!(is_glob(g));
    assert!(!is_glob("/tmp/plain.csv"));
}

#[test]
fn a_source_whose_name_ends_in_a_dot_keeps_its_dot() {
    assert_eq!(
        no_files_url(&no_files_at("file:///tmp/report.")).as_deref(),
        Some("file:///tmp/report.")
    );
    assert_eq!(no_files_url("no such phrase"), None);
}

#[test]
fn a_json_error_on_a_non_json_table_is_not_rewritten_as_a_json_problem() {
    let raw = "Arrow error: Json error: Not valid JSON: EOF while parsing an object at line 1 column 1";
    assert_eq!(register_error(&spec("events", &[], "parquet"), ".parquet", raw, &none()), raw);
}

#[test]
fn an_unrecognised_failure_is_left_exactly_as_datafusion_wrote_it() {
    let raw = "Parquet error: Parquet error: Invalid Parquet file. Corrupt footer";
    assert_eq!(register_error(&spec("t", &[], "parquet"), ".parquet", raw, &none()), raw);
}

#[test]
fn a_runaway_message_is_capped() {
    let raw = "Internal error: ".to_string() + &"x".repeat(5_000);
    let msg = register_error(&spec("t", &[], "parquet"), ".parquet", &raw, &none());
    assert_eq!(msg.chars().count(), MAX_PASSTHROUGH + 1, "capped, plus the marker");
    assert!(msg.ends_with('…'));
    assert!(msg.starts_with("Internal error: "), "the useful head survives");
}

#[test]
fn csv_bytes_are_ascii_or_refused() {
    assert_eq!(ascii_byte("delimiter", ';'), Ok(b';'));
    assert_eq!(
        ascii_byte("delimiter", '→'),
        Err("The CSV delimiter has to be a single-byte character, not '→'.".to_string())
    );
}

#[test]
fn type_names_are_short_and_labels_parse() {
    assert_eq!(short_type("Timestamp(Nanosecond, None)"), "Timestamp");
    assert_eq!(short_type("LargeUtf8"), "Utf8");
    assert_eq!(short_type("LargeList(Field { .. })"), "List");
    assert_eq!(short_type("Int64"), "Int64");
    assert_eq!(parse_dtype("Date"), ArrowType::Date32);
    assert_eq!(parse_dtype("Int16"), ArrowType::Int16);
    assert_eq!(parse_dtype("Decimal"), ArrowType::Utf8);
}

use strata_core::catalog::{reader_for, source_paths, Reader};
use strata_core::external::{CsvRead, FileCompression};

#[test]
fn a_csv_reader_takes_its_options_as_bytes() {
    let mut s = spec("t", &["/d/a.csv"], "csv");
    s.format = SourceFormat::Csv(CsvRead {
        delimiter: ';',
        escape: Some('\\'),
        compression: FileCompression::Gzip,
        ..CsvRead::new()
    });
    assert_eq!(
        reader_for(&s),
        Ok(Reader::Csv {
            header: true,
            delimiter: b';',
            quote: b'"',
            escape: Some(b'\\'),
            comment: None,
            newlines_in_values: false,
            truncated_rows: false,
            infer_rows: None,
            compression: FileCompression::Gzip,
        })
    );
    s.format = SourceFormat::Csv(CsvRead { delimiter: '→', quote: 'é', ..CsvRead::new() });
    assert_eq!(
        reader_for(&s),
        Err("The CSV delimiter has to be a single-byte character, not '→'.".to_string())
    );
    s.format = SourceFormat::Csv(CsvRead { comment: Some('§'), ..CsvRead::new() });
    assert_eq!(
        reader_for(&s),
        Err("The CSV comment character has to be a single-byte character, not '§'.".to_string())
    );
}

#[test]
fn every_format_gets_its_own_reader_or_is_refused_by_name() {
    assert_eq!(reader_for(&spec("t", &["x"], "parquet")), Ok(Reader::Parquet));
    assert_eq!(reader_for(&spec("t", &["x"], "arrow")), Ok(Reader::Arrow));
    assert_eq!(
        reader_for(&array_spec("t")),
        Ok(Reader::Json { newline_delimited: false, infer_rows: None, compression: FileCompression::Uncompressed })
    );
    assert_eq!(
        reader_for(&spec("legacy", &["x"], "avro")),
        Err("Table 'legacy' is defined as 'avro', which Strata cannot read.".to_string())
    );
}

#[test]
fn blank_source_paths_are_skipped_and_none_at_all_is_refused() {
    assert_eq!(
        source_paths(&spec("t", &["  ", "/d/a.csv", "\t", "/d/b.csv"], "csv")),
        Ok(vec!["/d/a.csv".to_string(), "/d/b.csv".to_string()])
    );
    assert_eq!(source_paths(&spec("t", &[" ", ""], "csv")), Err("No source paths".to_string()));
    assert_eq!(source_paths(&spec("t", &[], "csv")), Err("No source paths".to_string()));
}

use strata_core::catalog::partition_level;

#[test]
fn a_listing_level_follows_the_least_partition_folder() {
    let parts: Vec<String> =
        ["_tmp", "year=2023", "year=2022", "notes", "2024=x"].iter().map(|s| s.to_string()).collect();
    assert_eq!(partition_level(&parts), Some(("year".to_string(), 2)));
    let none: Vec<String> = ["a", "b=", "=c"].iter().map(|s| s.to_string()).collect();
    assert_eq!(partition_level(&none), Some(("b".to_string(), 1)));
    let plain: Vec<String> = ["a", "c"].iter().map(|s| s.to_string()).collect();
    assert_eq!(partition_level(&plain), None);
}

#[test]
fn plan_dependencies_are_each_named_once_in_order() {
    let nodes = vec![
        PlanVisit::Alias { alias: "c".to_string() },
        PlanVisit::Other,
        PlanVisit::Alias { alias: "b".to_string() },
        PlanVisit::Scan { table: "orders".to_string(), carries_plan: false },
        PlanVisit::Scan { table: "users".to_string(), carries_plan: false },
        PlanVisit::Scan { table: "orders".to_string(), carries_plan: false },
        PlanVisit::Scan { table: "pending_view".to_string(), carries_plan: true },
        PlanVisit::Alias { alias: "b".to_string() },
    ];
    let deps = plan_deps(&nodes);
    assert_eq!(deps.tables, vec!["orders".to_string(), "users".to_string()]);
    assert_eq!(deps.aliases, vec!["b".to_string(), "c".to_string()]);
    let empty = plan_deps(&[]);
    assert!(empty.tables.is_empty() && empty.aliases.is_empty());
}
