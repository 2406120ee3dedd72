use strata_core::external::{declared_type, source_of, SqlType};
use strata_core::external::{
    apply, one_char, option_keys_for, partition_cols, partition_type, read_format, store_key,
    stored_as_formats, CsvRead, DeclaredColumn, DeclaredType, FileCompression, JsonRead, JsonShape,
    OptionKind, OptionValue, SourceFormat, WordSet,
};

fn q(s: &str) -> OptionValue {
    OptionValue::Quoted(s.to_string())
}

fn opts(pairs: &[(&str, &str)]) -> Vec<(String, OptionValue)> {
    pairs.iter().map(|(k, v)| (k.to_string(), q(v))).collect()
}

#[test]
fn option_keys_for_agrees_with_apply() {
    let plausible = |kind: OptionKind| -> String {
        match kind {
            OptionKind::Bool => "true".into(),
            OptionKind::Char => "x".into(),
            OptionKind::Int => "10".into(),
            OptionKind::Enum(words) => words.words()[0].to_string(),
        }
    };
    for format_word in stored_as_formats() {
        let mut format = read_format(format_word, "t", &[]).expect("a format Strata reads");
        for (key, kind, _) in option_keys_for(format_word) {
            let value = q(&plausible(kind));
            apply(&mut format, "t", key, &value)
                .unwrap_or_else(|e| panic!("{format_word} offers '{key}' but apply refuses: {e}"));
        }
    }
    assert!(
        option_keys_for("NDJSON").iter().all(|(k, ..)| *k != "format.newline_delimited"),
        "NDJSON must not offer the shape key read_format refuses there"
    );
    assert!(
        read_format("NDJSON", "t", &opts(&[("format.newline_delimited", "true")])).is_err(),
        "the premise: read_format refuses the shape key on NDJSON"
    );
    assert!(option_keys_for("PARQUET").is_empty());
    assert!(option_keys_for("ARROW").is_empty());
    assert!(option_keys_for("AVRO").is_empty(), "an unknown word offers nothing");
}

#[test]
fn stored_as_formats_parse_through_read_format() {
    for format in stored_as_formats() {
        assert!(read_format(format, "t", &[]).is_ok(), "{format}");
    }
    assert!(read_format("AVRO", "t", &[]).is_err(), "a format with no reader is not offered");
    for word in WordSet::Compression.words() {
        let mut f = read_format("CSV", "t", &[]).expect("csv");
        assert!(apply(&mut f, "t", "format.compression", &q(word)).is_ok(), "{word}");
    }
}

#[test]
fn a_format_strata_cannot_read_is_refused_by_name() {
    assert_eq!(
        read_format("AVRO", "t", &[]),
        Err("STORED AS AVRO is not a format Strata reads. Use PARQUET, CSV, JSON or ARROW".to_string())
    );
}

#[test]
fn an_option_with_no_field_on_the_def_is_refused_by_name() {
    for (format, key, expected) in [
        ("CSV", "format.null_regex", "'format.null_regex' is not a read option for a csv table. Table 't' is STORED AS CSV"),
        ("PARQUET", "format.delimiter", "Table 't' is STORED AS PARQUET, which takes no read options"),
        ("JSON", "format.has_header", "'format.has_header' is not a read option for a json table. Table 't' is STORED AS JSON"),
    ] {
        assert_eq!(read_format(format, "t", &opts(&[(key, "x")])), Err(expected.to_string()));
    }
}

#[test]
fn an_object_store_option_is_refused_toward_connections_without_its_value() {
    let surface = "A bucket, its region and where its credentials come from belong to a \
                   connection. Add one in Connections";
    for key in [
        "aws.access_key_id",
        "aws.secret_access_key",
        "aws.region",
        "aws.endpoint",
        "google.service_account",
        "timeout",
        "allow_invalid_certificates",
    ] {
        let err = read_format("CSV", "t", &opts(&[(key, "AKIAsecretvalue")])).expect_err("refused");
        assert_eq!(err, format!("'{key}' is an object store setting, not a table read option. {surface}"));
        assert!(!err.contains("AKIAsecretvalue"), "a refusal never echoes an option's value: {err}");
    }
    assert_eq!(store_key("format.delimiter"), None);
}

#[test]
fn a_typed_csv_def_reads_every_field() {
    let f = read_format(
        "CSV",
        "events",
        &[
            ("format.has_header".into(), q("true")),
            ("format.delimiter".into(), q(";")),
            ("format.quote".into(), q("'")),
            ("format.newlines_in_values".into(), q("false")),
            ("format.truncated_rows".into(), q("TRUE")),
            ("format.schema_infer_max_rec".into(), OptionValue::Number("500".into())),
            ("format.compression".into(), q("uncompressed")),
        ],
    );
    assert_eq!(
        f,
        Ok(SourceFormat::Csv(CsvRead {
            header: true,
            delimiter: ';',
            quote: '\'',
            escape: None,
            comment: None,
            newlines_in_values: false,
            truncated_rows: true,
            infer_rows: Some(500),
            compression: FileCompression::Uncompressed,
        }))
    );
}

#[test]
fn a_delimiter_reads_the_way_the_configure_box_reads_it() {
    let f = read_format("CSV", "t", &opts(&[("format.delimiter", "\\t")])).expect("read");
    assert_eq!(f, SourceFormat::Csv(CsvRead { delimiter: '\t', ..CsvRead::new() }));
    assert_eq!(one_char("delimiter", ""), Ok(None));
    assert!(one_char("delimiter", ";;").is_err());
}

#[test]
fn ndjson_states_the_shape_it_cannot_then_be_told() {
    assert_eq!(
        read_format("NDJSON", "t", &opts(&[("format.newline_delimited", "false")])),
        Err("STORED AS NDJSON is newline-delimited JSON. Use STORED AS JSON to set \
             'format.newline_delimited'"
            .to_string())
    );
    assert_eq!(
        read_format(
            "JSON",
            "t",
            &opts(&[("format.newline_delimited", "false"), ("format.schema_infer_max_rec", "0")])
        ),
        Ok(SourceFormat::Json(JsonRead {
            shape: JsonShape::Array,
            infer_rows: None,
            compression: FileCompression::Uncompressed,
        }))
    );
}

#[test]
fn every_compression_spelling_lands_on_its_own_codec() {
    for (spelling, codec) in [
        ("uncompressed", FileCompression::Uncompressed),
        ("gzip", FileCompression::Gzip),
        ("bzip2", FileCompression::Bzip2),
        ("xz", FileCompression::Xz),
        ("zstd", FileCompression::Zstd),
    ] {
        let f = read_format("CSV", "t", &opts(&[("format.compression", spelling)])).expect(spelling);
        assert_eq!(f, SourceFormat::Csv(CsvRead { compression: codec, ..CsvRead::new() }), "{spelling}");
    }
    assert_eq!(
        read_format("CSV", "t", &opts(&[("format.compression", "lzma")])),
        Err("The option 'format.compression' is 'lzma'. It takes uncompressed, gzip, bzip2, xz or zstd".to_string())
    );
}

#[test]
fn value_refusals_name_the_option() {
    assert_eq!(
        read_format("CSV", "t", &opts(&[("format.has_header", "Yes")])),
        Err("The option 'format.has_header' is 'yes'. It takes true or false".to_string())
    );
    assert_eq!(
        read_format("CSV", "t", &opts(&[("format.schema_infer_max_rec", "-1")])),
        Err("The option 'format.schema_infer_max_rec' takes a number of rows".to_string())
    );
    assert_eq!(
        read_format("CSV", "t", &opts(&[("format.escape", "")])),
        Err("The option 'format.escape' has no value".to_string())
    );
    assert_eq!(
        read_format("CSV", "t", &[("format.quote".into(), OptionValue::Other)]),
        Err("The option 'format.quote' needs a string or number value".to_string())
    );
    assert_eq!(
        read_format("CSV", "t", &opts(&[("format.quote", "a"), ("FORMAT.QUOTE", "b")])),
        Err("The option 'format.quote' is set twice".to_string())
    );
}

#[test]
fn a_column_list_is_partition_types_or_it_is_refused() {
    let col = |name: &str, ty: DeclaredType| DeclaredColumn {
        name: name.into(),
        value: name.into(),
        ty,
        has_options: false,
    };
    assert_eq!(
        partition_cols(&[col("id", DeclaredType::Int)], &[], "generic"),
        Err("Schemas are inferred. Remove the column list, or move 'id' into PARTITIONED BY".to_string())
    );
    assert_eq!(
        partition_cols(
            &[col("year", DeclaredType::Int), col("month", DeclaredType::Text)],
            &["year".into(), "month".into()],
            "generic"
        ),
        Ok(vec![("year".into(), "Int32".into()), ("month".into(), "Utf8".into())])
    );
    assert_eq!(
        partition_cols(&[], &["year".into()], "generic"),
        Ok(vec![("year".into(), "Utf8".into())])
    );
    assert_eq!(
        partition_cols(&[col("year", DeclaredType::Other("FLOAT".into()))], &["year".into()], "generic"),
        Err("Partition column 'year' is declared FLOAT. A partition column reads as VARCHAR, INT, BIGINT or DATE".to_string())
    );
    assert_eq!(
        partition_cols(&[], &["year".into(), "year".into()], "generic"),
        Err("Partition column 'year' is listed twice".to_string())
    );
    assert_eq!(partition_type("d", &DeclaredType::Date), Ok("Date32".to_string()));
    assert_eq!(partition_type("b", &DeclaredType::BigInt), Ok("Int64".to_string()));
}

use strata_core::external::{clause_refusal, external_report, external_step, ExternalClauses};
use strata_core::tables::{CreateStep, Existing};

fn clauses() -> ExternalClauses {
    ExternalClauses {
        has_project: true,
        temporary: false,
        unbounded: false,
        ordered: false,
        constrained: false,
        name_parts: 1,
    }
}

#[test]
fn unsupported_clauses_are_refused_in_order() {
    assert_eq!(clause_refusal(&clauses()), None);
    assert_eq!(
        clause_refusal(&ExternalClauses { has_project: false, temporary: true, ..clauses() }),
        Some("CREATE EXTERNAL TABLE needs a project folder to store the table".to_string())
    );
    assert_eq!(
        clause_refusal(&ExternalClauses { temporary: true, unbounded: true, ..clauses() }),
        Some("CREATE EXTERNAL TABLE does not support TEMPORARY".to_string())
    );
    assert_eq!(
        clause_refusal(&ExternalClauses { unbounded: true, ..clauses() }),
        Some("CREATE EXTERNAL TABLE does not support UNBOUNDED".to_string())
    );
    assert_eq!(
        clause_refusal(&ExternalClauses { ordered: true, ..clauses() }),
        Some("CREATE EXTERNAL TABLE does not support WITH ORDER".to_string())
    );
    assert_eq!(
        clause_refusal(&ExternalClauses { constrained: true, ..clauses() }),
        Some("Table constraints are not supported".to_string())
    );
    assert_eq!(
        clause_refusal(&ExternalClauses { name_parts: 4, ..clauses() }),
        Some("Strata has one schema, 'public'. Tables cannot be created elsewhere".to_string())
    );
    assert_eq!(clause_refusal(&ExternalClauses { name_parts: 3, ..clauses() }), None);
}

#[test]
fn an_external_table_never_replaces_one_strata_stores() {
    assert_eq!(
        external_step("t", Some(Existing::Table), false, true, true),
        Err("'t' is a table Strata stores in this project. Drop it first".to_string())
    );
    assert_eq!(external_step("t", Some(Existing::Table), false, true, false), Ok(CreateStep::Write { replacing: true }));
    assert_eq!(
        external_step("t", Some(Existing::Table), true, true, true),
        Ok(CreateStep::Nothing("Table 't' already exists".to_string()))
    );
    assert_eq!(external_step("v", Some(Existing::View), false, true, false), Err("'v' is a view".to_string()));
    assert_eq!(external_report("t", false, 1), "Table 't' created, 1 column");
    assert_eq!(external_report("t", true, 4), "Table 't' replaced, 4 columns");
}

#[test]
fn a_location_reads_locally_or_through_a_connection_of_the_project() {
    let s = |t: &str| t.to_string();
    assert_eq!(source_of("   ", None, s(""), None), Err(s("LOCATION has no path")));
    assert_eq!(source_of(" data/x.csv ", None, s("data/x.csv"), None), Ok((None, s("data/x.csv"))));
    assert_eq!(
        source_of("file:///tmp/x.csv", Some((s("file:///"), s("tmp/x.csv"))), s(""), Some(s("file:///"))),
        Err(s("LOCATION takes a path, not a file:// URL"))
    );
    assert_eq!(
        source_of("s3://bucket/x", Some((s("s3://bucket/"), s("x"))), s(""), None),
        Err(s("'s3://bucket/' is not a connection in this project. Add it in Connections"))
    );
    assert_eq!(
        source_of(" s3://bucket ", Some((s("s3://bucket/"), s(" "))), s(""), Some(s("s3://bucket/"))),
        Err(s("LOCATION 's3://bucket' names the bucket. Add the path inside it that holds the files"))
    );
    assert_eq!(
        source_of("s3://bucket/x", Some((s("s3://bucket/"), s("x"))), s(""), Some(s("s3://bucket/"))),
        Ok((Some(s("s3://bucket/")), s("x")))
    );
}

#[test]
fn a_location_over_a_connection_splits_into_the_url_and_a_bucket_relative_source() {
    let s = |t: &str| t.to_string();
    let lake = Some(s("s3://acme-lake"));
    assert_eq!(
        source_of(
            "s3://acme-lake/events/2024/**/*.parquet",
            Some((s("s3://acme-lake"), s("events/2024/**/*.parquet"))),
            s(""),
            lake.clone()
        ),
        Ok((Some(s("s3://acme-lake")), s("events/2024/**/*.parquet")))
    );
    assert_eq!(
        source_of("s3://acme-lake", Some((s("s3://acme-lake"), s(""))), s(""), lake.clone()),
        Err(s("LOCATION 's3://acme-lake' names the bucket. Add the path inside it that holds the files"))
    );
    assert_eq!(
        source_of("file:///data/events/", Some((s("file://"), s("/data/events/"))), s(""), None),
        Err(s("LOCATION takes a path, not a file:// URL"))
    );
    assert_eq!(
        source_of("/elsewhere/events/", None, s("/elsewhere/events/"), None),
        Ok((None, s("/elsewhere/events/")))
    );
    assert_eq!(source_of("/proj/events/", None, s("events"), None), Ok((None, s("events"))));
    assert_eq!(
        source_of("S3://ACME-LAKE/events/", Some((s("S3://ACME-LAKE"), s("events/"))), s(""), lake),
        Ok((Some(s("s3://acme-lake")), s("events/")))
    );
}

#[test]
fn every_text_spelling_declares_text() {
    for t in [SqlType::Varchar, SqlType::Text, SqlType::String, SqlType::Char] {
        assert_eq!(declared_type(t), DeclaredType::Text);
    }
    assert_eq!(declared_type(SqlType::Int), DeclaredType::Int);
    assert_eq!(declared_type(SqlType::Integer), DeclaredType::Int);
    assert_eq!(declared_type(SqlType::BigInt), DeclaredType::BigInt);
    assert_eq!(declared_type(SqlType::Date), DeclaredType::Date);
    assert_eq!(declared_type(SqlType::Other("DOUBLE".into())), DeclaredType::Other("DOUBLE".into()));
}
