use strata_core::export::{
    export_statement, format_pairs, is_bare_word, options_clause, partition_columns_are_bare_words,
    partition_columns_have_no_nulls, partition_null_refusal, quote_col, quote_literal, select_sql,
    Codec, Compression, Csv, ExportSpec, Format, Json, Parquet, Partition, Scope, Statistics,
    WriterVersion, KEEP_PARTITION_COLUMNS,
};

fn spec(format: Format) -> ExportSpec {
    ExportSpec {
        path: "/tmp/out.csv".into(),
        scope: Scope::All,
        sort: None,
        format,
        partition: Partition { columns: Vec::new(), keep_columns: false },
    }
}

fn format_options(format: &Format) -> Result<String, String> {
    Ok(options_clause(&format_pairs(format)?))
}

fn csv() -> Csv {
    Csv {
        header: true,
        delimiter: ',',
        null_value: String::new(),
        quote: '"',
        escape: None,
        double_quote: true,
        compression: Compression::Uncompressed,
    }
}

/// The snapshot's columns as the export sees them: the user's columns plus the ordinal.
fn result_columns() -> Vec<String> {
    vec!["amount".to_string(), "name".to_string(), "__strata_ord".to_string()]
}

#[test]
fn scope_all_reads_the_whole_snapshot_in_snapshot_order() {
    assert_eq!(
        select_sql("__snap_1", &spec(Format::Arrow), &result_columns(), Some("__strata_ord")),
        "SELECT \"amount\", \"name\" FROM __snap_1 ORDER BY \"__strata_ord\""
    );
}

#[test]
fn a_page_window_is_taken_after_the_sort() {
    let mut s = spec(Format::Arrow);
    s.sort = Some(("amount".into(), false));
    s.scope = Scope::Page { page: 3, page_size: 100 };
    assert_eq!(
        select_sql("__snap_7", &s, &result_columns(), Some("__strata_ord")),
        "SELECT \"amount\", \"name\" FROM __snap_7 ORDER BY \"amount\" DESC NULLS LAST, \
         \"__strata_ord\" LIMIT 100 OFFSET 200"
    );
}

#[test]
fn a_quote_in_a_sorted_column_name_cant_break_out_of_the_identifier() {
    let mut s = spec(Format::Arrow);
    s.sort = Some((r#"we"ird"#.into(), true));
    assert!(select_sql("__snap_1", &s, &result_columns(), None).contains(r#"ORDER BY "we""ird" ASC"#));
}

#[test]
fn without_an_ordinal_or_a_sort_there_is_no_order_by() {
    let s = spec(Format::Arrow);
    assert_eq!(
        select_sql("__snap_2", &s, &["a".to_string()], None),
        "SELECT \"a\" FROM __snap_2"
    );
    let mut p = spec(Format::Arrow);
    p.scope = Scope::Page { page: 0, page_size: 50 };
    assert_eq!(
        select_sql("__snap_2", &p, &["a".to_string()], None),
        "SELECT \"a\" FROM __snap_2 LIMIT 50 OFFSET 0"
    );
}

#[test]
fn csv_single_char_options_are_sent_as_byte_values() {
    let opts = format_options(&Format::Csv(csv())).expect("csv options");
    assert!(opts.contains("'DELIMITER' '44'"), "{opts}");
    assert!(opts.contains("'QUOTE' '34'"), "{opts}");
    assert!(!opts.contains("ESCAPE"), "{opts}");
}

#[test]
fn a_tab_delimiter_survives_as_a_byte() {
    let opts = format_options(&Format::Csv(Csv { delimiter: '\t', ..csv() })).expect("csv options");
    assert!(opts.contains("'DELIMITER' '9'"), "{opts}");
}

#[test]
fn a_non_ascii_delimiter_is_refused_in_our_own_words() {
    let err = format_options(&Format::Csv(Csv { delimiter: '£', ..csv() })).expect_err("non-ASCII delimiter");
    assert!(err.contains("single ASCII character"), "{err}");
    assert_eq!(err, "The CSV delimiter has to be a single ASCII character, not '£'");
}

#[test]
fn a_non_ascii_escape_is_refused_after_the_delimiter_and_quote_pass() {
    let err = format_options(&Format::Csv(Csv { escape: Some('é'), ..csv() })).expect_err("non-ASCII escape");
    assert_eq!(err, "The CSV escape character has to be a single ASCII character, not 'é'");
    let ok = format_options(&Format::Csv(Csv { escape: Some('\\'), ..csv() })).expect("ascii escape");
    assert!(ok.ends_with(", 'ESCAPE' '92')"), "{ok}");
}

#[test]
fn a_quote_in_the_null_text_cant_close_the_literal() {
    let opts = format_options(&Format::Csv(Csv { null_value: "it's null".into(), ..csv() })).expect("csv options");
    assert!(opts.contains("'NULL_VALUE' 'it''s null'"), "{opts}");
}

#[test]
fn a_parquet_level_rides_inside_the_codec_string() {
    let opts = format_options(&Format::Parquet(Parquet {
        compression: Codec::Zstd(9),
        statistics: Statistics::Page,
        max_row_group_size: 1_048_576,
        writer_version: WriterVersion::V1,
        dictionary: true,
    }))
    .expect("parquet options");
    assert!(opts.contains("'COMPRESSION' 'zstd(9)'"), "{opts}");
    assert!(opts.contains("'MAX_ROW_GROUP_SIZE' '1048576'"), "{opts}");
    assert!(opts.contains("'WRITER_VERSION' '1.0'"), "{opts}");
}

#[test]
fn codec_levels_are_clamped_and_a_row_group_holds_a_row() {
    assert_eq!(Codec::Gzip(0).as_option(), "gzip(1)");
    assert_eq!(Codec::Brotli(40).as_option(), "brotli(11)");
    assert_eq!(Codec::Zstd(22).as_option(), "zstd(22)");
    let opts = format_options(&Format::Parquet(Parquet {
        compression: Codec::Lz4,
        statistics: Statistics::Disabled,
        max_row_group_size: 0,
        writer_version: WriterVersion::V2,
        dictionary: false,
    }))
    .expect("parquet options");
    assert_eq!(
        opts,
        " OPTIONS ('COMPRESSION' 'lz4', 'STATISTICS_ENABLED' 'none', 'MAX_ROW_GROUP_SIZE' '1', \
         'WRITER_VERSION' '2.0', 'DICTIONARY_ENABLED' 'false')"
    );
}

#[test]
fn a_levelless_codec_carries_no_parens() {
    assert_eq!(Codec::Snappy.as_option(), "snappy");
    assert_eq!(Codec::Uncompressed.as_option(), "uncompressed");
}

#[test]
fn arrow_writes_no_options_clause_at_all() {
    assert_eq!(format_options(&Format::Arrow).expect("arrow"), "");
}

#[test]
fn keeping_partition_columns_is_a_copy_option_in_its_own_namespace() {
    let mut pairs = format_pairs(&Format::Arrow).expect("arrow");
    pairs.push((KEEP_PARTITION_COLUMNS, true.to_string()));
    assert_eq!(options_clause(&pairs), " OPTIONS ('execution.keep_partition_by_columns' 'true')");
}

#[test]
fn compression_names_the_suffix_it_adds_to_the_destination() {
    assert_eq!(Compression::Uncompressed.extension(), "");
    assert_eq!(Compression::Gzip.extension(), ".gz");
    assert_eq!(Compression::Zstd.extension(), ".zst");
}

#[test]
fn a_partition_column_that_isnt_one_bare_word_is_refused_before_planning() {
    assert!(is_bare_word("generic", "year"));
    assert!(is_bare_word("generic", "_2024"));
    assert!(!is_bare_word("generic", "order date"));
    assert!(!is_bare_word("generic", "2024"));
    assert_eq!(
        partition_columns_are_bare_words(&["year".to_string(), "order date".to_string()], "generic"),
        Err("Can't partition by 'order date': COPY takes unquoted column names, so a partition \
             column has to be a single plain word"
            .to_string())
    );
}

#[test]
fn bare_words_are_judged_by_the_configured_dialect() {
    assert!(is_bare_word("generic", "region#eu"));
    assert!(!is_bare_word("postgresql", "region#eu"));
}

#[test]
fn a_partition_column_must_be_known_to_hold_no_nulls() {
    let names = vec!["year".to_string(), "region".to_string()];
    assert_eq!(partition_columns_have_no_nulls(&["year".to_string()], &names, &[0, 3]), Ok(()));
    assert_eq!(
        partition_columns_have_no_nulls(&["region".to_string()], &names, &[0, 3]),
        Err(partition_null_refusal("region"))
    );
    // A count that is missing is not a count of zero.
    assert_eq!(
        partition_columns_have_no_nulls(&["region".to_string()], &names, &[0]),
        Err(partition_null_refusal("region"))
    );
    assert_eq!(
        partition_columns_have_no_nulls(&["month".to_string()], &names, &[0, 0]),
        Err("Can't partition by 'month': the result has no such column".to_string())
    );
}

#[test]
fn the_copy_statement_quotes_the_path_and_states_its_partitions() {
    let mut s = spec(Format::Json(Json { compression: Compression::Gzip }));
    s.path = "/tmp/it's".into();
    s.partition = Partition { columns: vec!["year".into(), "month".into()], keep_columns: false };
    assert_eq!(
        export_statement(&s, "SELECT 1").expect("statement"),
        "COPY (SELECT 1) TO '/tmp/it''s' STORED AS JSON PARTITIONED BY (year, month) \
         OPTIONS ('COMPRESSION' 'gzip', 'execution.keep_partition_by_columns' 'false')"
    );
    assert_eq!(
        export_statement(&spec(Format::Arrow), "SELECT 1").expect("statement"),
        "COPY (SELECT 1) TO '/tmp/out.csv' STORED AS ARROW"
    );
    assert_eq!(quote_col("a\"b"), "\"a\"\"b\"");
    assert_eq!(quote_literal("'"), "''");
}
