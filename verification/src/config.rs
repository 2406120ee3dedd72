//! The catalog of engine config keys surfaced in the Properties editor: each key's
//! name, built-in default, value [`Kind`] and one-line description, and the editor-side
//! rules over them — lookup, restart keys, keys the app owns, the effective value of a
//! key under a set of overrides, and value validation — and the engine-side ones: which
//! overrides a new session takes, what a live engine writes when its overrides change, and
//! whether a restart is owed.
//!
//! It is not a whitelist: any `datafusion.*` key may be entered; unknown keys are applied
//! best-effort. `datafusion.runtime.*` keys reconfigure the runtime, fixed at engine start,
//! so changing them needs a restart, which is why values are validated in the editor.

use std::collections::BTreeMap;

use vstd::prelude::*;

use crate::text::{
    append_str, chars_of, lower_all, lower_seq, owned, push_joined, push_signed, same_chars,
    signed_decimal, starts_with, has_prefix, str_is, string_of, str_views, join, trim, trimmed,
};
use crate::util::{
    byte_size_ok, is_byte_size, is_duration, is_time_zone, parse_duration, parse_i64,
    parse_i64_chars, time_zone_ok,
};

verus! {

/// The fixed value sets of the catalog's enumerated keys.
#[derive(Clone, Copy, PartialEq, Eq, Debug, Structural)]
pub enum Choices {
    /// Spill file codecs.
    SpillCompression,
    /// Parquet statistics levels.
    StatisticsLevel,
    /// EXPLAIN display formats.
    ExplainFormat,
    /// Default NULL orderings.
    NullOrdering,
    /// Duration renderings.
    DurationFormat,
}

/// The values of each [`Choices`], in display order.
pub open spec fn choice_options(c: Choices) -> Seq<Seq<char>> {
    match c {
        Choices::SpillCompression => seq!["uncompressed"@, "lz4_frame"@, "zstd"@],
        Choices::StatisticsLevel => seq!["none"@, "chunk"@, "page"@],
        Choices::ExplainFormat => seq!["indent"@, "tree"@],
        Choices::NullOrdering => seq!["nulls_max"@, "nulls_min"@, "nulls_first"@, "nulls_last"@],
        Choices::DurationFormat => seq!["pretty"@, "iso8601"@],
    }
}

impl Choices {
    /// The values this set allows, in display order.
    pub fn options(self) -> (r: Vec<&'static str>)
        ensures
            str_views(r@) == choice_options(self),
    {
        let r = match self {
            Choices::SpillCompression => vec!["uncompressed", "lz4_frame", "zstd"],
            Choices::StatisticsLevel => vec!["none", "chunk", "page"],
            Choices::ExplainFormat => vec!["indent", "tree"],
            Choices::NullOrdering => vec!["nulls_max", "nulls_min", "nulls_first", "nulls_last"],
            Choices::DurationFormat => vec!["pretty", "iso8601"],
        };
        assert(str_views(r@) =~= choice_options(self));
        r
    }
}

/// The value shape of a known key, which drives editor-side validation. Deliberately
/// lenient: the engine does the authoritative validation when a value is applied.
#[derive(Clone, Copy, PartialEq, Eq, Debug, Structural)]
pub enum Kind {
    /// Free-form string, not validated.
    Text,
    /// `true` or `false`, lower-case.
    Bool,
    /// A whole number `>= min`.
    Int { min: i64 },
    /// A byte size: a number with an optional K/M/G/T (i)(B) suffix, or blank.
    Bytes,
    /// A duration: a number with an optional s/m/h suffix, or blank.
    Duration,
    /// A time zone: a `±HH:MM` offset or a named zone.
    TimeZone,
    /// One of a fixed set of values, compared ASCII-case-insensitively.
    Enum(Choices),
}

/// One known engine config key: its name, built-in default in string form, value
/// [`Kind`], and a one-line description.
#[derive(Clone, Copy)]
pub struct EngineKey {
    pub key: &'static str,
    pub default: &'static str,
    pub kind: Kind,
    pub desc: &'static str,
}

/// An [`EngineKey`] as character sequences.
pub struct KeyModel {
    pub key: Seq<char>,
    pub default: Seq<char>,
    pub kind: Kind,
    pub desc: Seq<char>,
}

/// The model of one key.
pub open spec fn key_model(e: EngineKey) -> KeyModel {
    KeyModel { key: e.key@, default: e.default@, kind: e.kind, desc: e.desc@ }
}

/// The curated catalog, in display order, grouped by namespace.
pub open spec fn engine_table() -> Seq<KeyModel> {
    seq![
        KeyModel { key: "datafusion.catalog.information_schema"@, default: "false"@, kind: Kind::Bool, desc: "Expose information_schema virtual tables for schema introspection."@ },
        KeyModel { key: "datafusion.catalog.newlines_in_values"@, default: "false"@, kind: Kind::Bool, desc: "Allow newlines inside quoted CSV values (may reduce scan performance)."@ },
        KeyModel { key: "datafusion.execution.batch_size"@, default: "8192"@, kind: Kind::Int { min: 1 }, desc: "Rows per in-memory batch. Lower under tight memory; raise for vectorized throughput."@ },
        KeyModel { key: "datafusion.execution.target_partitions"@, default: "0"@, kind: Kind::Int { min: 0 }, desc: "Parallelism for execution. 0 = one partition per CPU core; 1 for tiny data."@ },
        KeyModel { key: "datafusion.execution.time_zone"@, default: "+00:00"@, kind: Kind::TimeZone, desc: "Session time zone used by now() and timestamp functions."@ },
        KeyModel { key: "datafusion.execution.coalesce_batches"@, default: "true"@, kind: Kind::Bool, desc: "Coalesce small batches between operators into larger ones."@ },
        KeyModel { key: "datafusion.execution.collect_statistics"@, default: "true"@, kind: Kind::Bool, desc: "Collect statistics when a table is first created."@ },
        KeyModel { key: "datafusion.execution.planning_concurrency"@, default: "0"@, kind: Kind::Int { min: 0 }, desc: "Fan-out during physical planning. 0 = number of CPU cores."@ },
        KeyModel { key: "datafusion.execution.spill_compression"@, default: "uncompressed"@, kind: Kind::Enum(Choices::SpillCompression), desc: "Codec for spill files: uncompressed, lz4_frame, or zstd."@ },
        KeyModel { key: "datafusion.execution.sort_spill_reservation_bytes"@, default: "10485760"@, kind: Kind::Int { min: 0 }, desc: "Memory reserved for each spillable sort's in-memory merge."@ },
        KeyModel { key: "datafusion.execution.sort_in_place_threshold_bytes"@, default: "1048576"@, kind: Kind::Int { min: 0 }, desc: "Below this size, sort in a single RecordBatch rather than merging."@ },
        KeyModel { key: "datafusion.execution.meta_fetch_concurrency"@, default: "32"@, kind: Kind::Int { min: 1 }, desc: "Files read in parallel when inferring schema and statistics."@ },
        KeyModel { key: "datafusion.execution.enable_recursive_ctes"@, default: "true"@, kind: Kind::Bool, desc: "Support recursive common table expressions."@ },
        KeyModel { key: "datafusion.execution.keep_partition_by_columns"@, default: "false"@, kind: Kind::Bool, desc: "Keep partition_by columns in the output RecordBatches."@ },
        KeyModel { key: "datafusion.execution.parquet.pruning"@, default: "true"@, kind: Kind::Bool, desc: "Skip row groups using predicate + min/max metadata."@ },
        KeyModel { key: "datafusion.execution.parquet.enable_page_index"@, default: "true"@, kind: Kind::Bool, desc: "Use the Parquet Page Index to reduce I/O and rows decoded."@ },
        KeyModel { key: "datafusion.execution.parquet.pushdown_filters"@, default: "false"@, kind: Kind::Bool, desc: "Apply filters during Parquet decoding (late materialization)."@ },
        KeyModel { key: "datafusion.execution.parquet.reorder_filters"@, default: "false"@, kind: Kind::Bool, desc: "Reorder pushed-down filters heuristically to cut evaluation cost."@ },
        KeyModel { key: "datafusion.execution.parquet.metadata_size_hint"@, default: "524288"@, kind: Kind::Int { min: 0 }, desc: "Bytes fetched optimistically for the Parquet footer + metadata."@ },
        KeyModel { key: "datafusion.execution.parquet.compression"@, default: "zstd(3)"@, kind: Kind::Text, desc: "(writing) Default codec: snappy, gzip(level), zstd(level), lz4, lz4_raw."@ },
        KeyModel { key: "datafusion.execution.parquet.max_row_group_size"@, default: "1048576"@, kind: Kind::Int { min: 1 }, desc: "(writing) Target max rows per row group."@ },
        KeyModel { key: "datafusion.execution.parquet.statistics_enabled"@, default: "page"@, kind: Kind::Enum(Choices::StatisticsLevel), desc: "(writing) Statistics level: none, chunk, or page."@ },
        KeyModel { key: "datafusion.optimizer.prefer_hash_join"@, default: "true"@, kind: Kind::Bool, desc: "Prefer HashJoin over SortMergeJoin (faster, more memory)."@ },
        KeyModel { key: "datafusion.optimizer.repartition_joins"@, default: "true"@, kind: Kind::Bool, desc: "Repartition on join keys to run joins in parallel."@ },
        KeyModel { key: "datafusion.optimizer.repartition_aggregations"@, default: "true"@, kind: Kind::Bool, desc: "Repartition on aggregate keys to run aggregates in parallel."@ },
        KeyModel { key: "datafusion.optimizer.repartition_sorts"@, default: "true"@, kind: Kind::Bool, desc: "Sort per-partition then merge, rather than coalescing first."@ },
        KeyModel { key: "datafusion.optimizer.repartition_file_scans"@, default: "true"@, kind: Kind::Bool, desc: "Repartition data-source partitions for maximum parallelism."@ },
        KeyModel { key: "datafusion.optimizer.repartition_file_min_size"@, default: "10485760"@, kind: Kind::Int { min: 0 }, desc: "Minimum total file size (bytes) to repartition a file scan."@ },
        KeyModel { key: "datafusion.optimizer.enable_round_robin_repartition"@, default: "true"@, kind: Kind::Bool, desc: "Add round-robin repartitioning to use more CPU cores."@ },
        KeyModel { key: "datafusion.optimizer.enable_topk_aggregation"@, default: "true"@, kind: Kind::Bool, desc: "Perform TopK during aggregations where possible."@ },
        KeyModel { key: "datafusion.optimizer.enable_dynamic_filter_pushdown"@, default: "true"@, kind: Kind::Bool, desc: "Push operator-generated dynamic filters into the scan phase."@ },
        KeyModel { key: "datafusion.optimizer.skip_failed_rules"@, default: "false"@, kind: Kind::Bool, desc: "Warn and continue when an optimizer rule errors, instead of failing."@ },
        KeyModel { key: "datafusion.optimizer.max_passes"@, default: "3"@, kind: Kind::Int { min: 1 }, desc: "How many times the optimizer re-runs over the plan."@ },
        KeyModel { key: "datafusion.optimizer.default_filter_selectivity"@, default: "20"@, kind: Kind::Int { min: 0 }, desc: "Default filter selectivity (0-100) when none can be determined."@ },
        KeyModel { key: "datafusion.optimizer.hash_join_single_partition_threshold"@, default: "1048576"@, kind: Kind::Int { min: 0 }, desc: "Max bytes of one HashJoin side collected into a single partition."@ },
        KeyModel { key: "datafusion.explain.logical_plan_only"@, default: "false"@, kind: Kind::Bool, desc: "EXPLAIN prints only the logical plan."@ },
        KeyModel { key: "datafusion.explain.physical_plan_only"@, default: "false"@, kind: Kind::Bool, desc: "EXPLAIN prints only the physical plan."@ },
        KeyModel { key: "datafusion.explain.show_statistics"@, default: "false"@, kind: Kind::Bool, desc: "EXPLAIN prints operator statistics for physical plans."@ },
        KeyModel { key: "datafusion.explain.show_sizes"@, default: "true"@, kind: Kind::Bool, desc: "EXPLAIN prints partition sizes."@ },
        KeyModel { key: "datafusion.explain.format"@, default: "indent"@, kind: Kind::Enum(Choices::ExplainFormat), desc: "EXPLAIN display format: indent or tree."@ },
        KeyModel { key: "datafusion.sql_parser.dialect"@, default: "generic"@, kind: Kind::Text, desc: "Parser dialect: generic, postgresql, mysql, sqlite, duckdb, snowflake, bigquery, ansi."@ },
        KeyModel { key: "datafusion.sql_parser.default_null_ordering"@, default: "nulls_max"@, kind: Kind::Enum(Choices::NullOrdering), desc: "Default NULL ordering: nulls_max, nulls_min, nulls_first, nulls_last."@ },
        KeyModel { key: "datafusion.sql_parser.enable_ident_normalization"@, default: "true"@, kind: Kind::Bool, desc: "Lower-case unquoted identifiers."@ },
        KeyModel { key: "datafusion.sql_parser.parse_float_as_decimal"@, default: "false"@, kind: Kind::Bool, desc: "Parse float literals as DECIMAL."@ },
        KeyModel { key: "datafusion.sql_parser.support_varchar_with_length"@, default: "true"@, kind: Kind::Bool, desc: "Permit VARCHAR(n) lengths (ignored) instead of erroring."@ },
        KeyModel { key: "datafusion.sql_parser.map_string_types_to_utf8view"@, default: "true"@, kind: Kind::Bool, desc: "Map string types to Utf8View during planning."@ },
        KeyModel { key: "datafusion.sql_parser.recursion_limit"@, default: "50"@, kind: Kind::Int { min: 1 }, desc: "Recursion depth limit when parsing complex SQL."@ },
        KeyModel { key: "datafusion.format.null"@, default: "NULL"@, kind: Kind::Text, desc: "How NULL values render in the results grid."@ },
        KeyModel { key: "datafusion.format.date_format"@, default: "%Y-%m-%d"@, kind: Kind::Text, desc: "strftime pattern for Date columns."@ },
        KeyModel { key: "datafusion.format.datetime_format"@, default: "%Y-%m-%dT%H:%M:%S%.f"@, kind: Kind::Text, desc: "strftime pattern for DateTime columns."@ },
        KeyModel { key: "datafusion.format.timestamp_format"@, default: "%Y-%m-%dT%H:%M:%S%.f"@, kind: Kind::Text, desc: "strftime pattern for Timestamp columns."@ },
        KeyModel { key: "datafusion.format.time_format"@, default: "%H:%M:%S%.f"@, kind: Kind::Text, desc: "strftime pattern for Time columns."@ },
        KeyModel { key: "datafusion.format.duration_format"@, default: "pretty"@, kind: Kind::Enum(Choices::DurationFormat), desc: "Duration rendering: pretty or ISO8601."@ },
        KeyModel { key: "datafusion.runtime.memory_limit"@, default: ""@, kind: Kind::Bytes, desc: "Cap on execution memory before spilling. Suffixes K/M/G, e.g. 2G. Blank = unlimited."@ },
        KeyModel { key: "datafusion.runtime.max_temp_directory_size"@, default: "100G"@, kind: Kind::Bytes, desc: "Ceiling on temporary spill files on disk. Suffixes K/M/G."@ },
        KeyModel { key: "datafusion.runtime.temp_directory"@, default: ""@, kind: Kind::Text, desc: "Path to the temporary spill directory."@ },
        KeyModel { key: "datafusion.runtime.metadata_cache_limit"@, default: "50M"@, kind: Kind::Bytes, desc: "Memory for the file-metadata cache (e.g. Parquet metadata)."@ },
        KeyModel { key: "datafusion.runtime.list_files_cache_limit"@, default: "1M"@, kind: Kind::Bytes, desc: "Memory for the list-files cache. Suffixes K/M/G."@ },
        KeyModel { key: "datafusion.runtime.list_files_cache_ttl"@, default: ""@, kind: Kind::Duration, desc: "TTL of list-files cache entries. Units m/s, e.g. 2m."@ },
    ]
}

/// The curated catalog as values, [`engine_table`].
pub fn engine_keys() -> (r: Vec<EngineKey>)
    ensures
        r@.len() == engine_table().len(),
        forall|i: int| 0 <= i < r@.len() ==> key_model(#[trigger] r@[i]) == engine_table()[i],
{
    let r = vec![
        EngineKey { key: "datafusion.catalog.information_schema", default: "false", kind: Kind::Bool, desc: "Expose information_schema virtual tables for schema introspection." },
        EngineKey { key: "datafusion.catalog.newlines_in_values", default: "false", kind: Kind::Bool, desc: "Allow newlines inside quoted CSV values (may reduce scan performance)." },
        EngineKey { key: "datafusion.execution.batch_size", default: "8192", kind: Kind::Int { min: 1 }, desc: "Rows per in-memory batch. Lower under tight memory; raise for vectorized throughput." },
        EngineKey { key: "datafusion.execution.target_partitions", default: "0", kind: Kind::Int { min: 0 }, desc: "Parallelism for execution. 0 = one partition per CPU core; 1 for tiny data." },
        EngineKey { key: "datafusion.execution.time_zone", default: "+00:00", kind: Kind::TimeZone, desc: "Session time zone used by now() and timestamp functions." },
        EngineKey { key: "datafusion.execution.coalesce_batches", default: "true", kind: Kind::Bool, desc: "Coalesce small batches between operators into larger ones." },
        EngineKey { key: "datafusion.execution.collect_statistics", default: "true", kind: Kind::Bool, desc: "Collect statistics when a table is first created." },
        EngineKey { key: "datafusion.execution.planning_concurrency", default: "0", kind: Kind::Int { min: 0 }, desc: "Fan-out during physical planning. 0 = number of CPU cores." },
        EngineKey { key: "datafusion.execution.spill_compression", default: "uncompressed", kind: Kind::Enum(Choices::SpillCompression), desc: "Codec for spill files: uncompressed, lz4_frame, or zstd." },
        EngineKey { key: "datafusion.execution.sort_spill_reservation_bytes", default: "10485760", kind: Kind::Int { min: 0 }, desc: "Memory reserved for each spillable sort's in-memory merge." },
        EngineKey { key: "datafusion.execution.sort_in_place_threshold_bytes", default: "1048576", kind: Kind::Int { min: 0 }, desc: "Below this size, sort in a single RecordBatch rather than merging." },
        EngineKey { key: "datafusion.execution.meta_fetch_concurrency", default: "32", kind: Kind::Int { min: 1 }, desc: "Files read in parallel when inferring schema and statistics." },
        EngineKey { key: "datafusion.execution.enable_recursive_ctes", default: "true", kind: Kind::Bool, desc: "Support recursive common table expressions." },
        EngineKey { key: "datafusion.execution.keep_partition_by_columns", default: "false", kind: Kind::Bool, desc: "Keep partition_by columns in the output RecordBatches." },
        EngineKey { key: "datafusion.execution.parquet.pruning", default: "true", kind: Kind::Bool, desc: "Skip row groups using predicate + min/max metadata." },
        EngineKey { key: "datafusion.execution.parquet.enable_page_index", default: "true", kind: Kind::Bool, desc: "Use the Parquet Page Index to reduce I/O and rows decoded." },
        EngineKey { key: "datafusion.execution.parquet.pushdown_filters", default: "false", kind: Kind::Bool, desc: "Apply filters during Parquet decoding (late materialization)." },
        EngineKey { key: "datafusion.execution.parquet.reorder_filters", default: "false", kind: Kind::Bool, desc: "Reorder pushed-down filters heuristically to cut evaluation cost." },
        EngineKey { key: "datafusion.execution.parquet.metadata_size_hint", default: "524288", kind: Kind::Int { min: 0 }, desc: "Bytes fetched optimistically for the Parquet footer + metadata." },
        EngineKey { key: "datafusion.execution.parquet.compression", default: "zstd(3)", kind: Kind::Text, desc: "(writing) Default codec: snappy, gzip(level), zstd(level), lz4, lz4_raw." },
        EngineKey { key: "datafusion.execution.parquet.max_row_group_size", default: "1048576", kind: Kind::Int { min: 1 }, desc: "(writing) Target max rows per row group." },
        EngineKey { key: "datafusion.execution.parquet.statistics_enabled", default: "page", kind: Kind::Enum(Choices::StatisticsLevel), desc: "(writing) Statistics level: none, chunk, or page." },
        EngineKey { key: "datafusion.optimizer.prefer_hash_join", default: "true", kind: Kind::Bool, desc: "Prefer HashJoin over SortMergeJoin (faster, more memory)." },
        EngineKey { key: "datafusion.optimizer.repartition_joins", default: "true", kind: Kind::Bool, desc: "Repartition on join keys to run joins in parallel." },
        EngineKey { key: "datafusion.optimizer.repartition_aggregations", default: "true", kind: Kind::Bool, desc: "Repartition on aggregate keys to run aggregates in parallel." },
        EngineKey { key: "datafusion.optimizer.repartition_sorts", default: "true", kind: Kind::Bool, desc: "Sort per-partition then merge, rather than coalescing first." },
        EngineKey { key: "datafusion.optimizer.repartition_file_scans", default: "true", kind: Kind::Bool, desc: "Repartition data-source partitions for maximum parallelism." },
        EngineKey { key: "datafusion.optimizer.repartition_file_min_size", default: "10485760", kind: Kind::Int { min: 0 }, desc: "Minimum total file size (bytes) to repartition a file scan." },
        EngineKey { key: "datafusion.optimizer.enable_round_robin_repartition", default: "true", kind: Kind::Bool, desc: "Add round-robin repartitioning to use more CPU cores." },
        EngineKey { key: "datafusion.optimizer.enable_topk_aggregation", default: "true", kind: Kind::Bool, desc: "Perform TopK during aggregations where possible." },
        EngineKey { key: "datafusion.optimizer.enable_dynamic_filter_pushdown", default: "true", kind: Kind::Bool, desc: "Push operator-generated dynamic filters into the scan phase." },
        EngineKey { key: "datafusion.optimizer.skip_failed_rules", default: "false", kind: Kind::Bool, desc: "Warn and continue when an optimizer rule errors, instead of failing." },
        EngineKey { key: "datafusion.optimizer.max_passes", default: "3", kind: Kind::Int { min: 1 }, desc: "How many times the optimizer re-runs over the plan." },
        EngineKey { key: "datafusion.optimizer.default_filter_selectivity", default: "20", kind: Kind::Int { min: 0 }, desc: "Default filter selectivity (0-100) when none can be determined." },
        EngineKey { key: "datafusion.optimizer.hash_join_single_partition_threshold", default: "1048576", kind: Kind::Int { min: 0 }, desc: "Max bytes of one HashJoin side collected into a single partition." },
        EngineKey { key: "datafusion.explain.logical_plan_only", default: "false", kind: Kind::Bool, desc: "EXPLAIN prints only the logical plan." },
        EngineKey { key: "datafusion.explain.physical_plan_only", default: "false", kind: Kind::Bool, desc: "EXPLAIN prints only the physical plan." },
        EngineKey { key: "datafusion.explain.show_statistics", default: "false", kind: Kind::Bool, desc: "EXPLAIN prints operator statistics for physical plans." },
        EngineKey { key: "datafusion.explain.show_sizes", default: "true", kind: Kind::Bool, desc: "EXPLAIN prints partition sizes." },
        EngineKey { key: "datafusion.explain.format", default: "indent", kind: Kind::Enum(Choices::ExplainFormat), desc: "EXPLAIN display format: indent or tree." },
        EngineKey { key: "datafusion.sql_parser.dialect", default: "generic", kind: Kind::Text, desc: "Parser dialect: generic, postgresql, mysql, sqlite, duckdb, snowflake, bigquery, ansi." },
        EngineKey { key: "datafusion.sql_parser.default_null_ordering", default: "nulls_max", kind: Kind::Enum(Choices::NullOrdering), desc: "Default NULL ordering: nulls_max, nulls_min, nulls_first, nulls_last." },
        EngineKey { key: "datafusion.sql_parser.enable_ident_normalization", default: "true", kind: Kind::Bool, desc: "Lower-case unquoted identifiers." },
        EngineKey { key: "datafusion.sql_parser.parse_float_as_decimal", default: "false", kind: Kind::Bool, desc: "Parse float literals as DECIMAL." },
        EngineKey { key: "datafusion.sql_parser.support_varchar_with_length", default: "true", kind: Kind::Bool, desc: "Permit VARCHAR(n) lengths (ignored) instead of erroring." },
        EngineKey { key: "datafusion.sql_parser.map_string_types_to_utf8view", default: "true", kind: Kind::Bool, desc: "Map string types to Utf8View during planning." },
        EngineKey { key: "datafusion.sql_parser.recursion_limit", default: "50", kind: Kind::Int { min: 1 }, desc: "Recursion depth limit when parsing complex SQL." },
        EngineKey { key: "datafusion.format.null", default: "NULL", kind: Kind::Text, desc: "How NULL values render in the results grid." },
        EngineKey { key: "datafusion.format.date_format", default: "%Y-%m-%d", kind: Kind::Text, desc: "strftime pattern for Date columns." },
        EngineKey { key: "datafusion.format.datetime_format", default: "%Y-%m-%dT%H:%M:%S%.f", kind: Kind::Text, desc: "strftime pattern for DateTime columns." },
        EngineKey { key: "datafusion.format.timestamp_format", default: "%Y-%m-%dT%H:%M:%S%.f", kind: Kind::Text, desc: "strftime pattern for Timestamp columns." },
        EngineKey { key: "datafusion.format.time_format", default: "%H:%M:%S%.f", kind: Kind::Text, desc: "strftime pattern for Time columns." },
        EngineKey { key: "datafusion.format.duration_format", default: "pretty", kind: Kind::Enum(Choices::DurationFormat), desc: "Duration rendering: pretty or ISO8601." },
        EngineKey { key: "datafusion.runtime.memory_limit", default: "", kind: Kind::Bytes, desc: "Cap on execution memory before spilling. Suffixes K/M/G, e.g. 2G. Blank = unlimited." },
        EngineKey { key: "datafusion.runtime.max_temp_directory_size", default: "100G", kind: Kind::Bytes, desc: "Ceiling on temporary spill files on disk. Suffixes K/M/G." },
        EngineKey { key: "datafusion.runtime.temp_directory", default: "", kind: Kind::Text, desc: "Path to the temporary spill directory." },
        EngineKey { key: "datafusion.runtime.metadata_cache_limit", default: "50M", kind: Kind::Bytes, desc: "Memory for the file-metadata cache (e.g. Parquet metadata)." },
        EngineKey { key: "datafusion.runtime.list_files_cache_limit", default: "1M", kind: Kind::Bytes, desc: "Memory for the list-files cache. Suffixes K/M/G." },
        EngineKey { key: "datafusion.runtime.list_files_cache_ttl", default: "", kind: Kind::Duration, desc: "TTL of list-files cache entries. Units m/s, e.g. 2m." },
    ];
    assert(r@.map_values(|e: EngineKey| key_model(e)) =~= engine_table());
    assert forall|i: int| 0 <= i < r@.len() implies key_model(#[trigger] r@[i]) == engine_table()[i] by {
        assert(r@.map_values(|e: EngineKey| key_model(e))[i] == key_model(r@[i]));
    }
    r
}

/// The position of the first catalog entry named exactly `name`.
pub open spec fn key_index(name: Seq<char>) -> Option<int> {
    let t = engine_table();
    if exists|i: int| 0 <= i < t.len() && t[i].key == name {
        Some(
            choose|i: int|
                0 <= i < t.len() && t[i].key == name && forall|j: int| 0 <= j < i ==> t[j].key != name,
        )
    } else {
        None
    }
}

/// The catalog entry a name refers to, surrounding whitespace ignored.
pub open spec fn lookup_key(name: Seq<char>) -> Option<KeyModel> {
    match key_index(trim(name)) {
        Some(i) => Some(engine_table()[i]),
        None => None,
    }
}

/// Look up a known key's metadata, or `None` for a custom key.
pub fn key_def(name: &str) -> (r: Option<EngineKey>)
    ensures
        r matches Some(e) ==> lookup_key(name@) == Some(key_model(e)),
        r is None <==> lookup_key(name@) is None,
{
    let c = chars_of(name);
    let t = trimmed(&c, 0, c.len());
    assert(c@.subrange(0, c@.len() as int) =~= c@);
    let keys = engine_keys();
    let mut i: usize = 0;
    while i < keys.len()
        invariant
            i <= keys@.len(),
            t@ == trim(name@),
            keys@.len() == engine_table().len(),
            forall|k: int| 0 <= k < keys@.len() ==> key_model(#[trigger] keys@[k]) == engine_table()[k],
            forall|j: int| 0 <= j < i ==> engine_table()[j].key != t@,
        decreases keys@.len() - i,
    {
        let e = keys[i];
        if str_is(e.key, &t) {
            proof {
                let tb = engine_table();
                assert(key_model(keys@[i as int]) == tb[i as int]);
                let k = choose|k: int|
                    0 <= k < tb.len() && tb[k].key == t@ && forall|j: int| 0 <= j < k ==> tb[j].key != t@;
                assert(k == i) by {
                    if k > i {
                        assert(tb[i as int].key == t@);
                    }
                }
            }
            return Some(e);
        }
        assert(key_model(keys@[i as int]) == engine_table()[i as int]);
        i = i + 1;
    }
    None
}

/// Is `name` a runtime-level key, one whose change needs an engine restart?
pub fn is_restart_key(name: &str) -> (r: bool)
    ensures
        r == starts_with(trim(name@), "datafusion.runtime."@),
{
    let c = chars_of(name);
    let t = trimmed(&c, 0, c.len());
    assert(c@.subrange(0, c@.len() as int) =~= c@);
    let p = chars_of("datafusion.runtime.");
    has_prefix(&t, &p)
}

/// The keys the app owns and config may never set.
pub open spec fn owned_key(k: Seq<char>) -> bool {
    ||| k == "datafusion.catalog.default_catalog"@
    ||| k == "datafusion.catalog.default_schema"@
    ||| k == "datafusion.sql_parser.collect_spans"@
}

/// Is `name`, surrounding whitespace ignored, a key the app owns: the catalog and schema
/// the tables live in, and the planner's source spans that feed the editor?
pub fn is_owned_key(name: &str) -> (r: bool)
    ensures
        r == owned_key(trim(name@)),
{
    let c = chars_of(name);
    let t = trimmed(&c, 0, c.len());
    assert(c@.subrange(0, c@.len() as int) =~= c@);
    str_is("datafusion.catalog.default_catalog", &t) || str_is("datafusion.catalog.default_schema", &t)
        || str_is("datafusion.sql_parser.collect_spans", &t)
}

/// The value a map of `String`s holds under the key whose characters are `k`.
pub open spec fn string_lookup(m: Map<String, String>, k: Seq<char>) -> Option<Seq<char>> {
    if exists|s: String| m.contains_key(s) && s@ == k {
        Some(m[choose|s: String| m.contains_key(s) && s@ == k]@)
    } else {
        None
    }
}

/// `BTreeMap::get` on a map keyed by `String`, looked up by `&str`.
///
/// Trusted: `get` returns the value stored under the key that compares equal to `key`,
/// and a `String` compares equal to a `str` exactly when their characters are equal.
#[verifier::external_body]
fn map_get(m: &BTreeMap<String, String>, key: &str) -> (r: Option<String>)
    ensures
        match r {
            Some(v) => string_lookup(m@, key@) == Some(v@),
            None => string_lookup(m@, key@) is None,
        },
{
    m.get(key).cloned()
}

/// The effective value of `key` under `overrides`.
pub open spec fn effective_value(overrides: Map<String, String>, key: Seq<char>) -> Option<Seq<char>> {
    match string_lookup(overrides, key) {
        Some(v) => Some(v),
        None => match lookup_key(key) {
            Some(e) => Some(e.default),
            None => None,
        },
    }
}

/// The effective value for `key` given the overrides: the override if present, else the
/// known built-in default; `None` for a custom key with no override.
pub fn effective(overrides: &BTreeMap<String, String>, key: &str) -> (r: Option<String>)
    ensures
        match r {
            Some(v) => effective_value(overrides@, key@) == Some(v@),
            None => effective_value(overrides@, key@) is None,
        },
{
    if let Some(v) = map_get(overrides, key) {
        return Some(v);
    }
    match key_def(key) {
        Some(e) => Some(owned(e.default)),
        None => None,
    }
}

/// What a value `v` of kind `k` is refused with, if anything.
pub open spec fn kind_error(k: Kind, v: Seq<char>) -> Option<Seq<char>> {
    match k {
        Kind::Text => None,
        Kind::Bool => if v == "true"@ || v == "false"@ {
            None
        } else {
            Some("Expected true or false."@)
        },
        Kind::Int { min } => match parse_i64(v) {
            Some(n) => if n >= min {
                None
            } else if min == 0 {
                Some("Expected a non-negative whole number."@)
            } else if min == 1 {
                Some("Expected a positive whole number."@)
            } else {
                Some("Expected a whole number ≥ "@ + signed_decimal(min as int) + "."@)
            },
            None => Some("Expected a whole number."@),
        },
        Kind::Bytes => if is_byte_size(v) {
            None
        } else {
            Some("Expected a size like 512M, 2G, or a number of bytes."@)
        },
        Kind::Duration => if is_duration(v) {
            None
        } else {
            Some("Expected a duration like 30s or 2m."@)
        },
        Kind::TimeZone => if is_time_zone(v) {
            None
        } else {
            Some("Expected a ±HH:MM offset (e.g. +00:00) or a named zone."@)
        },
        Kind::Enum(c) => if exists|i: int|
            0 <= i < choice_options(c).len() && lower_seq(#[trigger] choice_options(c)[i]) == lower_seq(v) {
            None
        } else {
            Some("Expected one of: "@ + join(choice_options(c), ", "@) + "."@)
        },
    }
}

/// What the editor flags for `value` under `key`: a reserved key always; otherwise
/// nothing for a blank value or a custom key, else the kind's own check of the trimmed
/// value.
pub open spec fn value_error_text(key: Seq<char>, value: Seq<char>) -> Option<Seq<char>> {
    if owned_key(trim(key)) {
        Some("Reserved — Strata names the catalog and schema itself."@)
    } else if trim(value).len() == 0 {
        None
    } else {
        match lookup_key(key) {
            None => None,
            Some(e) => kind_error(e.kind, trim(value)),
        }
    }
}

/// A `String` of `text`.
fn message(text: &str) -> (r: Option<String>)
    ensures
        r matches Some(m) && m@ == text@,
{
    Some(owned(text))
}

/// Is `v` equal to some value of `c`, ignoring ASCII case?
fn among_choices(c: Choices, v: &[char]) -> (r: bool)
    ensures
        r == exists|i: int|
            0 <= i < choice_options(c).len() && lower_seq(#[trigger] choice_options(c)[i]) == lower_seq(v@),
{
    let opts = c.options();
    let lv = lower_all(v);
    let mut i: usize = 0;
    while i < opts.len()
        invariant
            i <= opts@.len(),
            str_views(opts@) == choice_options(c),
            lv@ == lower_seq(v@),
            forall|j: int| 0 <= j < i ==> lower_seq(#[trigger] choice_options(c)[j]) != lower_seq(v@),
        decreases opts@.len() - i,
    {
        let o = chars_of(opts[i]);
        let lo = lower_all(&o);
        assert(choice_options(c)[i as int] == opts@[i as int]@);
        if same_chars(&lo, &lv) {
            return true;
        }
        i = i + 1;
    }
    false
}

/// Check a non-blank trimmed value against its kind: [`kind_error`].
fn check_kind(k: Kind, v: &[char]) -> (r: Option<String>)
    ensures
        match r {
            Some(m) => kind_error(k, v@) == Some(m@),
            None => kind_error(k, v@) is None,
        },
{
    match k {
        Kind::Text => None,
        Kind::Bool => {
            if str_is("true", v) || str_is("false", v) {
                None
            } else {
                message("Expected true or false.")
            }
        },
        Kind::Int { min } => match parse_i64_chars(v) {
            Some(n) => {
                if n >= min {
                    None
                } else if min == 0 {
                    message("Expected a non-negative whole number.")
                } else if min == 1 {
                    message("Expected a positive whole number.")
                } else {
                    let mut m: Vec<char> = Vec::new();
                    append_str(&mut m, "Expected a whole number ≥ ");
                    push_signed(&mut m, min);
                    append_str(&mut m, ".");
                    Some(string_of(&m))
                }
            },
            None => message("Expected a whole number."),
        },
        Kind::Bytes => {
            if byte_size_ok(v) {
                None
            } else {
                message("Expected a size like 512M, 2G, or a number of bytes.")
            }
        },
        Kind::Duration => {
            let s = string_of(v);
            if parse_duration(s.as_str()).is_some() {
                None
            } else {
                message("Expected a duration like 30s or 2m.")
            }
        },
        Kind::TimeZone => {
            if time_zone_ok(v) {
                None
            } else {
                message("Expected a ±HH:MM offset (e.g. +00:00) or a named zone.")
            }
        },
        Kind::Enum(c) => {
            if among_choices(c, v) {
                None
            } else {
                let opts = c.options();
                let mut m: Vec<char> = Vec::new();
                append_str(&mut m, "Expected one of: ");
                push_joined(&mut m, opts.as_slice(), ", ");
                append_str(&mut m, ".");
                Some(string_of(&m))
            }
        },
    }
}

/// Validate `value` against the known `key`'s [`Kind`]: an error message for a
/// clearly-invalid value, or `None` when it is acceptable — including a blank value (which
/// means "use the default") and any custom key. A key the app owns is refused whatever the
/// value.
pub fn value_error(key: &str, value: &str) -> (r: Option<String>)
    ensures
        match r {
            Some(m) => value_error_text(key@, value@) == Some(m@),
            None => value_error_text(key@, value@) is None,
        },
{
    if is_owned_key(key) {
        return message("Reserved — Strata names the catalog and schema itself.");
    }
    let c = chars_of(value);
    let v = trimmed(&c, 0, c.len());
    assert(c@.subrange(0, c@.len() as int) =~= c@);
    if v.len() == 0 {
        return None;
    }
    match key_def(key) {
        None => None,
        Some(e) => check_kind(e.kind, &v),
    }
}

// ---- applying a new set of overrides to a live engine ---------------------------------------

/// The value `entries` hold under the key whose characters are `k`: the first such entry's.
pub open spec fn entry_value(entries: Seq<(String, String)>, k: Seq<char>) -> Option<Seq<char>>
    decreases entries.len(),
{
    if entries.len() == 0 {
        None
    } else if entries[0].0@ == k {
        Some(entries[0].1@)
    } else {
        entry_value(entries.drop_first(), k)
    }
}

proof fn lemma_entry_value_of_key(entries: Seq<(String, String)>, i: int)
    requires
        0 <= i < entries.len(),
    ensures
        entry_value(entries, entries[i].0@) is Some,
    decreases i,
{
    if i > 0 && entries[0].0@ != entries[i].0@ {
        lemma_entry_value_of_key(entries.drop_first(), i - 1);
        assert(entries.drop_first()[i - 1] == entries[i]);
    }
}

proof fn lemma_entry_value_has_key(entries: Seq<(String, String)>, k: Seq<char>)
    requires
        entry_value(entries, k) is Some,
    ensures
        exists|i: int| 0 <= i < entries.len() && #[trigger] entries[i].0@ == k,
    decreases entries.len(),
{
    if entries[0].0@ != k {
        lemma_entry_value_has_key(entries.drop_first(), k);
        let i = choose|i: int| 0 <= i < entries.drop_first().len() && #[trigger] entries.drop_first()[i].0@ == k;
        assert(entries[i + 1] == entries.drop_first()[i]);
    }
}

/// [`entry_value`] of `key` in `entries`.
pub fn entry_lookup(entries: &[(String, String)], key: &str) -> (r: Option<String>)
    ensures
        match entry_value(entries@, key@) {
            Some(v) => r matches Some(s) && s@ == v,
            None => r is None,
        },
{
    let kc = chars_of(key);
    let mut i: usize = 0;
    assert(entries@.skip(0) =~= entries@);
    while i < entries.len()
        invariant
            i <= entries@.len(),
            kc@ == key@,
            entry_value(entries@, key@) == entry_value(entries@.skip(i as int), key@),
        decreases entries@.len() - i,
    {
        assert(entries@.skip(i as int).drop_first() =~= entries@.skip(i + 1));
        assert(entries@.skip(i as int)[0] == entries@[i as int]);
        let ec = chars_of(entries[i].0.as_str());
        if same_chars(&ec, &kc) {
            return Some(entries[i].1.clone());
        }
        i = i + 1;
    }
    None
}

/// A key a live engine never writes onto its session: one the runtime reads at start, or
/// one the app owns.
pub open spec fn never_written(k: Seq<char>) -> bool {
    starts_with(trim(k), "datafusion.runtime."@) || owned_key(trim(k))
}

/// The value a live engine writes for `k` under the new overrides `next`: the override, or
/// — for a key the user removed — its built-in default, so that it is un-applied rather than
/// left at the value just deleted; nothing for a custom key with no override.
pub open spec fn write_value(next: Seq<(String, String)>, k: Seq<char>) -> Option<Seq<char>> {
    match entry_value(next, k) {
        Some(v) => Some(v),
        None => match lookup_key(k) {
            Some(e) => Some(e.default),
            None => None,
        },
    }
}

/// A key either set of overrides names.
pub open spec fn touched(current: Seq<(String, String)>, next: Seq<(String, String)>, k: Seq<char>) -> bool {
    entry_value(current, k) is Some || entry_value(next, k) is Some
}

/// The two sets of overrides hold the same entries in the same order.
pub open spec fn same_entries(a: Seq<(String, String)>, b: Seq<(String, String)>) -> bool {
    a.len() == b.len() && forall|i: int| 0 <= i < a.len() ==> a[i].0@ == b[i].0@ && a[i].1@ == b[i].1@
}

fn entries_equal(a: &[(String, String)], b: &[(String, String)]) -> (r: bool)
    ensures
        r == same_entries(a@, b@),
{
    if a.len() != b.len() {
        return false;
    }
    let mut i: usize = 0;
    while i < a.len()
        invariant
            i <= a@.len(),
            a@.len() == b@.len(),
            forall|j: int| 0 <= j < i ==> a@[j].0@ == b@[j].0@ && a@[j].1@ == b@[j].1@,
        decreases a@.len() - i,
    {
        let x0 = chars_of(a[i].0.as_str());
        let y0 = chars_of(b[i].0.as_str());
        let x1 = chars_of(a[i].1.as_str());
        let y1 = chars_of(b[i].1.as_str());
        if !same_chars(&x0, &y0) || !same_chars(&x1, &y1) {
            return false;
        }
        i = i + 1;
    }
    true
}

/// Adds the write for `key`, if it is to be written and is not yet.
fn add_write(out: &mut Vec<(String, String)>, current: &[(String, String)], next: &[(String, String)], key: &str)
    requires
        touched(current@, next@, key@),
        forall|i: int|
            0 <= i < old(out)@.len() ==> touched(current@, next@, (#[trigger] old(out)@[i]).0@) && !never_written(
                old(out)@[i].0@,
            ) && write_value(next@, old(out)@[i].0@) == Some(old(out)@[i].1@),
        forall|a: int, b: int| 0 <= a < b < old(out)@.len() ==> #[trigger] old(out)@[a].0@ != #[trigger] old(out)@[b].0@,
    ensures
        forall|i: int|
            0 <= i < final(out)@.len() ==> touched(current@, next@, (#[trigger] final(out)@[i]).0@) && !never_written(
                final(out)@[i].0@,
            ) && write_value(next@, final(out)@[i].0@) == Some(final(out)@[i].1@),
        forall|a: int, b: int| 0 <= a < b < final(out)@.len() ==> #[trigger] final(out)@[a].0@ != #[trigger] final(out)@[b].0@,
        forall|i: int| 0 <= i < old(out)@.len() ==> final(out)@[i] == old(out)@[i],
        final(out)@.len() >= old(out)@.len(),
        !never_written(key@) && write_value(next@, key@) is Some ==> exists|i: int|
            0 <= i < final(out)@.len() && (#[trigger] final(out)@[i]).0@ == key@,
{
    if is_restart_key(key) || is_owned_key(key) {
        return;
    }
    let kc = chars_of(key);
    let mut i: usize = 0;
    while i < out.len()
        invariant
            i <= out@.len(),
            kc@ == key@,
            out@ == old(out)@,
            forall|q: int|
                0 <= q < old(out)@.len() ==> touched(current@, next@, (#[trigger] old(out)@[q]).0@) && !never_written(
                    old(out)@[q].0@,
                ) && write_value(next@, old(out)@[q].0@) == Some(old(out)@[q].1@),
            forall|a: int, b: int| 0 <= a < b < old(out)@.len() ==> #[trigger] old(out)@[a].0@ != #[trigger] old(out)@[b].0@,
            forall|j: int| 0 <= j < i ==> (#[trigger] out@[j]).0@ != key@,
        decreases out@.len() - i,
    {
        let oc = chars_of(out[i].0.as_str());
        if same_chars(&oc, &kc) {
            assert(out@[i as int].0@ == key@);
            return;
        }
        i = i + 1;
    }
    let value = match entry_lookup(next, key) {
        Some(v) => v,
        None => match key_def(key) {
            Some(e) => owned(e.default),
            None => return,
        },
    };
    let ghost before = out@;
    out.push((owned(key), value));
    assert(out@[before.len() as int].0@ == key@);
}

/// The session settings a live engine writes when its overrides go from `current` to
/// `next`: nothing when they are the same; otherwise, for every key either names that is
/// neither a runtime key nor one the app owns, the key once with its [`write_value`].
pub fn config_writes(current: &[(String, String)], next: &[(String, String)]) -> (r: Vec<(String, String)>)
    ensures
        same_entries(current@, next@) ==> r@.len() == 0,
        forall|i: int|
            0 <= i < r@.len() ==> touched(current@, next@, (#[trigger] r@[i]).0@) && !never_written(r@[i].0@)
                && write_value(next@, r@[i].0@) == Some(r@[i].1@),
        forall|a: int, b: int| 0 <= a < b < r@.len() ==> #[trigger] r@[a].0@ != #[trigger] r@[b].0@,
        !same_entries(current@, next@) ==> forall|k: Seq<char>|
            touched(current@, next@, k) && !never_written(k) && (#[trigger] write_value(next@, k)) is Some ==> exists|i: int|
                0 <= i < r@.len() && (#[trigger] r@[i]).0@ == k,
{
    let mut out: Vec<(String, String)> = Vec::new();
    if entries_equal(current, next) {
        return out;
    }
    let mut i: usize = 0;
    while i < next.len()
        invariant
            i <= next@.len(),
            forall|q: int|
                0 <= q < out@.len() ==> touched(current@, next@, (#[trigger] out@[q]).0@) && !never_written(out@[q].0@)
                    && write_value(next@, out@[q].0@) == Some(out@[q].1@),
            forall|a: int, b: int| 0 <= a < b < out@.len() ==> #[trigger] out@[a].0@ != #[trigger] out@[b].0@,
            forall|j: int|
                0 <= j < i ==> (!never_written(next@[j].0@) && write_value(next@, next@[j].0@) is Some ==> exists|q: int|
                    0 <= q < out@.len() && (#[trigger] out@[q]).0@ == (#[trigger] next@[j]).0@),
        decreases next@.len() - i,
    {
        proof {
            lemma_entry_value_of_key(next@, i as int);
        }
        let ghost before = out@;
        add_write(&mut out, current, next, next[i].0.as_str());
        proof {
            assert forall|j: int|
                0 <= j < i + 1 implies (!never_written(next@[j].0@) && write_value(next@, next@[j].0@) is Some ==> exists|q: int|
                    0 <= q < out@.len() && (#[trigger] out@[q]).0@ == (#[trigger] next@[j]).0@) by {
                if j < i && !never_written(next@[j].0@) && write_value(next@, next@[j].0@) is Some {
                    let q = choose|q: int| 0 <= q < before.len() && (#[trigger] before[q]).0@ == next@[j].0@;
                    assert(out@[q] == before[q]);
                }
            }
        }
        i = i + 1;
    }
    let mut c: usize = 0;
    while c < current.len()
        invariant
            c <= current@.len(),
            forall|q: int|
                0 <= q < out@.len() ==> touched(current@, next@, (#[trigger] out@[q]).0@) && !never_written(out@[q].0@)
                    && write_value(next@, out@[q].0@) == Some(out@[q].1@),
            forall|a: int, b: int| 0 <= a < b < out@.len() ==> #[trigger] out@[a].0@ != #[trigger] out@[b].0@,
            forall|j: int|
                0 <= j < next@.len() ==> (!never_written(next@[j].0@) && write_value(next@, next@[j].0@) is Some ==> exists|q: int|
                    0 <= q < out@.len() && (#[trigger] out@[q]).0@ == (#[trigger] next@[j]).0@),
            forall|j: int|
                0 <= j < c ==> (!never_written(current@[j].0@) && write_value(next@, current@[j].0@) is Some ==> exists|q: int|
                    0 <= q < out@.len() && (#[trigger] out@[q]).0@ == (#[trigger] current@[j]).0@),
        decreases current@.len() - c,
    {
        proof {
            lemma_entry_value_of_key(current@, c as int);
        }
        let ghost before = out@;
        add_write(&mut out, current, next, current[c].0.as_str());
        proof {
            assert forall|j: int|
                0 <= j < next@.len() implies (!never_written(next@[j].0@) && write_value(next@, next@[j].0@) is Some ==> exists|q: int|
                    0 <= q < out@.len() && (#[trigger] out@[q]).0@ == (#[trigger] next@[j]).0@) by {
                if !never_written(next@[j].0@) && write_value(next@, next@[j].0@) is Some {
                    let q = choose|q: int| 0 <= q < before.len() && (#[trigger] before[q]).0@ == next@[j].0@;
                    assert(out@[q] == before[q]);
                }
            }
            assert forall|j: int|
                0 <= j < c + 1 implies (!never_written(current@[j].0@) && write_value(next@, current@[j].0@) is Some ==> exists|q: int|
                    0 <= q < out@.len() && (#[trigger] out@[q]).0@ == (#[trigger] current@[j]).0@) by {
                if j < c && !never_written(current@[j].0@) && write_value(next@, current@[j].0@) is Some {
                    let q = choose|q: int| 0 <= q < before.len() && (#[trigger] before[q]).0@ == current@[j].0@;
                    assert(out@[q] == before[q]);
                }
            }
        }
        c = c + 1;
    }
    proof {
        assert forall|k: Seq<char>|
            touched(current@, next@, k) && !never_written(k) && (#[trigger] write_value(next@, k)) is Some implies exists|i: int|
                0 <= i < out@.len() && (#[trigger] out@[i]).0@ == k by {
            if entry_value(next@, k) is Some {
                lemma_entry_value_has_key(next@, k);
                let j = choose|j: int| 0 <= j < next@.len() && #[trigger] next@[j].0@ == k;
                assert(next@[j].0@ == k);
            } else {
                lemma_entry_value_has_key(current@, k);
                let j = choose|j: int| 0 <= j < current@.len() && #[trigger] current@[j].0@ == k;
                assert(current@[j].0@ == k);
            }
        }
    }
    out
}

/// The runtime overrides of two sets differ: some runtime key is held differently.
pub open spec fn runtime_differs(current: Seq<(String, String)>, built: Seq<(String, String)>) -> bool {
    exists|k: Seq<char>|
        starts_with(trim(k), "datafusion.runtime."@) && #[trigger] entry_value(current, k) != entry_value(built, k)
}

fn runtime_mismatch_in(a: &[(String, String)], b: &[(String, String)]) -> (r: bool)
    ensures
        r ==> runtime_differs(a@, b@),
        !r ==> forall|j: int|
            0 <= j < a@.len() && starts_with(trim((#[trigger] a@[j]).0@), "datafusion.runtime."@) ==> entry_value(
                a@,
                a@[j].0@,
            ) == entry_value(b@, a@[j].0@),
{
    let mut i: usize = 0;
    while i < a.len()
        invariant
            i <= a@.len(),
            forall|j: int|
                0 <= j < i && starts_with(trim((#[trigger] a@[j]).0@), "datafusion.runtime."@) ==> entry_value(
                    a@,
                    a@[j].0@,
                ) == entry_value(b@, a@[j].0@),
        decreases a@.len() - i,
    {
        if is_restart_key(a[i].0.as_str()) {
            let x = entry_lookup(a, a[i].0.as_str());
            let y = entry_lookup(b, a[i].0.as_str());
            let same = match (&x, &y) {
                (Some(p), Some(q)) => {
                    let pc = chars_of(p.as_str());
                    let qc = chars_of(q.as_str());
                    same_chars(&pc, &qc)
                },
                (None, None) => true,
                _ => false,
            };
            if !same {
                assert(entry_value(a@, a@[i as int].0@) != entry_value(b@, a@[i as int].0@));
                return true;
            }
        }
        i = i + 1;
    }
    false
}

proof fn lemma_differs_symmetric(a: Seq<(String, String)>, b: Seq<(String, String)>)
    requires
        runtime_differs(b, a),
    ensures
        runtime_differs(a, b),
{
    let k = choose|k: Seq<char>|
        starts_with(trim(k), "datafusion.runtime."@) && #[trigger] entry_value(b, k) != entry_value(a, k);
    assert(entry_value(a, k) != entry_value(b, k));
}

/// Whether a restart is owed: the runtime overrides in force, `current`, hold some runtime
/// key differently from the overrides the running engine was built with.
pub fn restart_owed(current: &[(String, String)], built: &[(String, String)]) -> (r: bool)
    ensures
        r == runtime_differs(current@, built@),
{
    if runtime_mismatch_in(current, built) {
        return true;
    }
    if runtime_mismatch_in(built, current) {
        proof {
            lemma_differs_symmetric(current@, built@);
        }
        return true;
    }
    proof {
        assert forall|k: Seq<char>|
            starts_with(trim(k), "datafusion.runtime."@) implies #[trigger] entry_value(current@, k) == entry_value(built@, k) by {
            if entry_value(current@, k) is Some {
                lemma_entry_value_has_key(current@, k);
                let j = choose|j: int| 0 <= j < current@.len() && #[trigger] current@[j].0@ == k;
                assert(current@[j].0@ == k);
            } else if entry_value(built@, k) is Some {
                lemma_entry_value_has_key(built@, k);
                let j = choose|j: int| 0 <= j < built@.len() && #[trigger] built@[j].0@ == k;
                assert(built@[j].0@ == k);
            }
        }
    }
    false
}

/// The overrides a new session is configured with, in order: every entry except the
/// runtime's own (`datafusion.runtime.` prefixed, which configure the runtime instead) and
/// the keys the app owns.
pub open spec fn session_entries(overrides: Seq<(String, String)>, n: nat) -> Seq<(Seq<char>, Seq<char>)>
    decreases n,
{
    if n == 0 {
        seq![]
    } else {
        let e = overrides[n - 1];
        let before = session_entries(overrides, (n - 1) as nat);
        if !starts_with(e.0@, "datafusion.runtime."@) && !owned_key(trim(e.0@)) {
            before.push((e.0@, e.1@))
        } else {
            before
        }
    }
}

pub open spec fn entry_views(v: Seq<(String, String)>) -> Seq<(Seq<char>, Seq<char>)> {
    v.map_values(|e: (String, String)| (e.0@, e.1@))
}

/// [`session_entries`] of all of `overrides`.
pub fn session_settings(overrides: &[(String, String)]) -> (r: Vec<(String, String)>)
    ensures
        entry_views(r@) == session_entries(overrides@, overrides@.len()),
{
    let prefix = chars_of("datafusion.runtime.");
    let mut out: Vec<(String, String)> = Vec::new();
    assert(entry_views(out@) =~= session_entries(overrides@, 0));
    for i in 0..overrides.len()
        invariant
            prefix@ == "datafusion.runtime."@,
            entry_views(out@) == session_entries(overrides@, i as nat),
    {
        let k = chars_of(overrides[i].0.as_str());
        if !has_prefix(&k, &prefix) && !is_owned_key(overrides[i].0.as_str()) {
            let e = (overrides[i].0.clone(), overrides[i].1.clone());
            let ghost before = out@;
            out.push(e);
            assert(entry_views(out@) =~= entry_views(before).push((e.0@, e.1@)));
        }
    }
    out
}

/// **Rebuilding settles a restart**: an engine built with the overrides in force owes none.
pub proof fn law_rebuild_owes_no_restart(overrides: Seq<(String, String)>)
    ensures
        !runtime_differs(overrides, overrides),
{
}

// ---- the runtime an engine is built with -------------------------------------------------

/// An override of `k` that says something: its value trimmed, unless that is blank.
pub open spec fn setting(overrides: Seq<(String, String)>, k: Seq<char>) -> Option<Seq<char>> {
    match entry_value(overrides, k) {
        Some(v) => if trim(v).len() > 0 {
            Some(trim(v))
        } else {
            None
        },
        None => None,
    }
}

/// The list-files cache TTL an override asks for, in seconds, or the refusal of one that is
/// not a duration.
pub open spec fn ttl_setting(overrides: Seq<(String, String)>) -> Option<Result<nat, Seq<char>>> {
    match setting(overrides, "datafusion.runtime.list_files_cache_ttl"@) {
        None => None,
        Some(v) => match crate::util::duration_seconds(v) {
            Some(n) => Some(Ok(n)),
            None => Some(
                Err("datafusion.runtime.list_files_cache_ttl: expected a duration like 30s or 2m, got "@ + v),
            ),
        },
    }
}

/// What the runtime of a new engine is built from, read off the `datafusion.runtime.*`
/// overrides. The byte sizes stay text: the runtime builder parses them, in the order of the
/// fields, before the TTL is applied.
pub struct RuntimePlan {
    /// The list-files cache limit applied before any override, so that a removed override
    /// falls back to it: the catalogue's default for the key. The cache starts small, never
    /// at the runtime's own unlimited default.
    pub list_cache_default: Option<String>,
    pub memory_limit: Option<String>,
    pub max_temp_directory_size: Option<String>,
    pub temp_directory: Option<String>,
    pub metadata_cache_limit: Option<String>,
    pub list_files_cache_limit: Option<String>,
    /// The TTL in seconds, or why the override is not one.
    pub list_files_cache_ttl: Option<Result<u64, String>>,
}

/// The view of an optional string.
pub open spec fn opt_text(o: Option<String>) -> Option<Seq<char>> {
    match o {
        Some(t) => Some(t@),
        None => None,
    }
}

/// [`setting`] as a `String`.
fn setting_of(overrides: &[(String, String)], key: &str) -> (r: Option<String>)
    ensures
        opt_text(r) == setting(overrides@, key@),
{
    match entry_lookup(overrides, key) {
        Some(v) => {
            let c = chars_of(v.as_str());
            let t = trimmed(&c, 0, c.len());
            assert(c@.subrange(0, c@.len() as int) =~= v@);
            if t.len() > 0 {
                Some(string_of(&t))
            } else {
                None
            }
        },
        None => None,
    }
}

/// The plan of a new engine's runtime under `overrides`: each runtime key's trimmed,
/// non-blank override, the list-files cache default, and the TTL parsed.
pub fn runtime_plan(overrides: &[(String, String)]) -> (r: RuntimePlan)
    ensures
        opt_text(r.memory_limit) == setting(overrides@, "datafusion.runtime.memory_limit"@),
        opt_text(r.max_temp_directory_size) == setting(overrides@, "datafusion.runtime.max_temp_directory_size"@),
        opt_text(r.temp_directory) == setting(overrides@, "datafusion.runtime.temp_directory"@),
        opt_text(r.metadata_cache_limit) == setting(overrides@, "datafusion.runtime.metadata_cache_limit"@),
        opt_text(r.list_files_cache_limit) == setting(overrides@, "datafusion.runtime.list_files_cache_limit"@),
        opt_text(r.list_cache_default) == match lookup_key("datafusion.runtime.list_files_cache_limit"@) {
            Some(e) => Some(e.default),
            None => None,
        },
        match ttl_setting(overrides@) {
            None => r.list_files_cache_ttl is None,
            Some(Ok(n)) => r.list_files_cache_ttl == Some(Ok::<u64, String>(n as u64)),
            Some(Err(m)) => r.list_files_cache_ttl matches Some(Err(t)) && t@ == m,
        },
{
    let list_cache_default = match key_def("datafusion.runtime.list_files_cache_limit") {
        Some(e) => Some(owned(e.default)),
        None => None,
    };
    let ttl_key = "datafusion.runtime.list_files_cache_ttl";
    let list_files_cache_ttl = match setting_of(overrides, ttl_key) {
        None => None,
        Some(v) => match parse_duration(v.as_str()) {
            Some(n) => Some(Ok(n)),
            None => {
                let mut m: Vec<char> = Vec::new();
                append_str(&mut m, ttl_key);
                append_str(&mut m, ": expected a duration like 30s or 2m, got ");
                append_str(&mut m, v.as_str());
                let t = string_of(&m);
                proof {
                    reveal_strlit("datafusion.runtime.list_files_cache_ttl");
                    reveal_strlit("datafusion.runtime.list_files_cache_ttl: expected a duration like 30s or 2m, got ");
                    reveal_strlit(": expected a duration like 30s or 2m, got ");
                }
                assert(t@ =~= "datafusion.runtime.list_files_cache_ttl: expected a duration like 30s or 2m, got "@ + v@);
                Some(Err(t))
            },
        },
    };
    RuntimePlan {
        list_cache_default,
        memory_limit: setting_of(overrides, "datafusion.runtime.memory_limit"),
        max_temp_directory_size: setting_of(overrides, "datafusion.runtime.max_temp_directory_size"),
        temp_directory: setting_of(overrides, "datafusion.runtime.temp_directory"),
        metadata_cache_limit: setting_of(overrides, "datafusion.runtime.metadata_cache_limit"),
        list_files_cache_limit: setting_of(overrides, "datafusion.runtime.list_files_cache_limit"),
        list_files_cache_ttl,
    }
}

// ---- a live engine's config ---------------------------------------------------------------

/// The config half of a live engine: the overrides in force, the overrides its runtime was
/// built with, and the options its session holds.
pub struct EngineConfig {
    pub overrides: Vec<(String, String)>,
    pub built: Vec<(String, String)>,
    pub session: Vec<(String, String)>,
}

/// Entries with the same views hold the same values.
pub proof fn lemma_entry_value_views(a: Seq<(String, String)>, b: Seq<(String, String)>, k: Seq<char>)
    requires
        entry_views(a) == entry_views(b),
    ensures
        entry_value(a, k) == entry_value(b, k),
    decreases a.len(),
{
    assert(a.len() == entry_views(a).len() && b.len() == entry_views(b).len());
    if a.len() > 0 {
        assert(entry_views(a)[0] == entry_views(b)[0]);
        assert(entry_views(a.drop_first()) =~= entry_views(a).drop_first());
        assert(entry_views(b.drop_first()) =~= entry_views(b).drop_first());
        lemma_entry_value_views(a.drop_first(), b.drop_first(), k);
    }
}

/// A copy of `v`, entry by entry.
fn copy_entries(v: &[(String, String)]) -> (r: Vec<(String, String)>)
    ensures
        entry_views(r@) == entry_views(v@),
{
    let mut out: Vec<(String, String)> = Vec::new();
    for i in 0..v.len()
        invariant
            entry_views(out@) == entry_views(v@.take(i as int)),
    {
        let e = (owned(v[i].0.as_str()), owned(v[i].1.as_str()));
        let ghost before = out@;
        out.push(e);
        assert(entry_views(out@) =~= entry_views(before).push((e.0@, e.1@)));
        assert(v@.take(i + 1) =~= v@.take(i as int).push(v@[i as int]));
        assert(entry_views(v@.take(i + 1)) =~= entry_views(v@.take(i as int)).push((v@[i as int].0@, v@[i as int].1@)));
    }
    assert(v@.take(v@.len() as int) =~= v@);
    out
}

/// `k` set to `v` in front of `session`, so that it is what a lookup of `k` finds; every other
/// key reads as before.
fn set_option(session: &mut Vec<(String, String)>, k: &String, v: &String)
    ensures
        entry_value(final(session)@, k@) == Some(v@),
        forall|q: Seq<char>| q != k@ ==> entry_value(final(session)@, q) == entry_value(old(session)@, q),
{
    let e = (owned(k.as_str()), owned(v.as_str()));
    session.insert(0, e);
    assert(final(session)@.drop_first() =~= old(session)@);
}

/// What a session reads for `k` after the overrides go from `current` to `next`: the written
/// value for a key a changed set of overrides writes, the old option for any other.
pub open spec fn option_after(
    session: Seq<(String, String)>,
    current: Seq<(String, String)>,
    next: Seq<(String, String)>,
    k: Seq<char>,
) -> Option<Seq<char>> {
    if !same_entries(current, next) && touched(current, next, k) && !never_written(k) && write_value(next, k) is Some {
        write_value(next, k)
    } else {
        entry_value(session, k)
    }
}

impl EngineConfig {
    /// A new engine's config: its runtime built with `overrides`, its session holding the
    /// options [`session_settings`] passes on.
    pub fn new(overrides: Vec<(String, String)>) -> (r: EngineConfig)
        ensures
            r.overrides@ == overrides@,
            entry_views(r.built@) == entry_views(overrides@),
            entry_views(r.session@) == session_entries(overrides@, overrides@.len()),
            !runtime_differs(r.overrides@, r.built@),
    {
        let built = copy_entries(&overrides);
        let session = session_settings(&overrides);
        proof {
            assert forall|k: Seq<char>| #[trigger] entry_value(overrides@, k) == entry_value(built@, k) by {
                lemma_entry_value_views(overrides@, built@, k);
            }
        }
        EngineConfig { overrides, built, session }
    }

    /// New overrides for a live engine: the session takes [`config_writes`], the overrides
    /// become `next`, and the answer is whether the runtime, fixed at start, now owes a
    /// restart. Runtime keys and the keys the app owns never reach the session.
    pub fn set_config(&mut self, next: Vec<(String, String)>) -> (restart: bool)
        ensures
            final(self).overrides@ == next@,
            final(self).built@ == old(self).built@,
            restart == runtime_differs(next@, old(self).built@),
            forall|k: Seq<char>|
                #[trigger] entry_value(final(self).session@, k) == option_after(
                    old(self).session@,
                    old(self).overrides@,
                    next@,
                    k,
                ),
    {
        let writes = config_writes(&self.overrides, &next);
        let ghost cur = self.overrides@;
        let ghost s0 = self.session@;
        let mut i: usize = 0;
        while i < writes.len()
            invariant
                i <= writes@.len(),
                self.built@ == old(self).built@,
                forall|j: int|
                    0 <= j < writes@.len() ==> touched(cur, next@, (#[trigger] writes@[j]).0@) && !never_written(writes@[j].0@)
                        && write_value(next@, writes@[j].0@) == Some(writes@[j].1@),
                forall|k: Seq<char>|
                    #[trigger] entry_value(self.session@, k) == if exists|j: int| 0 <= j < i && (#[trigger] writes@[j]).0@ == k {
                        write_value(next@, k)
                    } else {
                        entry_value(s0, k)
                    },
            decreases writes@.len() - i,
        {
            let ghost before = self.session@;
            set_option(&mut self.session, &writes[i].0, &writes[i].1);
            proof {
                assert forall|k: Seq<char>|
                    #[trigger] entry_value(self.session@, k) == if exists|j: int| 0 <= j < i + 1 && (#[trigger] writes@[j]).0@ == k {
                        write_value(next@, k)
                    } else {
                        entry_value(s0, k)
                    } by {
                    if k == writes@[i as int].0@ {
                        assert(0 <= i < i + 1 && writes@[i as int].0@ == k);
                    } else {
                        if exists|j: int| 0 <= j < i + 1 && (#[trigger] writes@[j]).0@ == k {
                            let j = choose|j: int| 0 <= j < i + 1 && (#[trigger] writes@[j]).0@ == k;
                            assert(j < i);
                        }
                    }
                }
            }
            i = i + 1;
        }
        proof {
            assert forall|k: Seq<char>|
                #[trigger] entry_value(self.session@, k) == option_after(s0, cur, next@, k) by {
                if exists|j: int| 0 <= j < writes@.len() && (#[trigger] writes@[j]).0@ == k {
                    let j = choose|j: int| 0 <= j < writes@.len() && (#[trigger] writes@[j]).0@ == k;
                    assert(writes@.len() > 0);
                    assert(!same_entries(cur, next@));
                }
                if !same_entries(cur, next@) && touched(cur, next@, k) && !never_written(k) && write_value(next@, k) is Some {
                    let j = choose|j: int| 0 <= j < writes@.len() && (#[trigger] writes@[j]).0@ == k;
                }
            }
        }
        self.overrides = next;
        restart_owed(&self.overrides, &self.built)
    }
}

// ---- the catalogue's defaults ----------------------------------------------------------------

/// A default its own key accepts: blank, or clean under the key's kind.
pub open spec fn default_accepted(e: KeyModel) -> bool {
    trim(e.default).len() == 0 || kind_error(e.kind, trim(e.default)) is None
}

/// A value with no whitespace at either end is its own trim.
proof fn lemma_trim_plain(s: Seq<char>)
    requires
        s.len() > 0,
        !crate::text::is_ws(s[0]),
        !crate::text::is_ws(s.last()),
    ensures
        trim(s) == s,
{
}

proof fn lemma_default_bool_false()
    ensures
        default_accepted(KeyModel { key: Seq::empty(), default: "false"@, kind: Kind::Bool, desc: Seq::empty() }),
{
    reveal_strlit("false");
    let v = "false"@;
    lemma_trim_plain(v);
}

proof fn lemma_default_int_8192()
    ensures
        default_accepted(KeyModel { key: Seq::empty(), default: "8192"@, kind: Kind::Int { min: 1 }, desc: Seq::empty() }),
{
    reveal_strlit("8192");
    let v = "8192"@;
    lemma_trim_plain(v);
    reveal_with_fuel(crate::util::digits_value, 5);
    assert(parse_i64(v) == Some(8192int));
}

proof fn lemma_default_int_0()
    ensures
        default_accepted(KeyModel { key: Seq::empty(), default: "0"@, kind: Kind::Int { min: 0 }, desc: Seq::empty() }),
{
    reveal_strlit("0");
    let v = "0"@;
    lemma_trim_plain(v);
    reveal_with_fuel(crate::util::digits_value, 2);
    assert(parse_i64(v) == Some(0int));
}

proof fn lemma_default_timezone_00_00()
    ensures
        default_accepted(KeyModel { key: Seq::empty(), default: "+00:00"@, kind: Kind::TimeZone, desc: Seq::empty() }),
{
    reveal_strlit("+00:00");
    let v = "+00:00"@;
    lemma_trim_plain(v);
}

proof fn lemma_default_bool_true()
    ensures
        default_accepted(KeyModel { key: Seq::empty(), default: "true"@, kind: Kind::Bool, desc: Seq::empty() }),
{
    reveal_strlit("true");
    let v = "true"@;
    lemma_trim_plain(v);
}

proof fn lemma_default_spillcompression_uncompressed()
    ensures
        default_accepted(KeyModel { key: Seq::empty(), default: "uncompressed"@, kind: Kind::Enum(Choices::SpillCompression), desc: Seq::empty() }),
{
    reveal_strlit("uncompressed");
    let v = "uncompressed"@;
    lemma_trim_plain(v);
    let o = choice_options(Choices::SpillCompression);
    assert(lower_seq(o[0]) == lower_seq(v));
}

proof fn lemma_default_int_10485760()
    ensures
        default_accepted(KeyModel { key: Seq::empty(), default: "10485760"@, kind: Kind::Int { min: 0 }, desc: Seq::empty() }),
{
    reveal_strlit("10485760");
    let v = "10485760"@;
    lemma_trim_plain(v);
    reveal_with_fuel(crate::util::digits_value, 9);
    assert(parse_i64(v) == Some(10485760int));
}

proof fn lemma_default_int_1048576()
    ensures
        default_accepted(KeyModel { key: Seq::empty(), default: "1048576"@, kind: Kind::Int { min: 0 }, desc: Seq::empty() }),
{
    reveal_strlit("1048576");
    let v = "1048576"@;
    lemma_trim_plain(v);
    reveal_with_fuel(crate::util::digits_value, 8);
    assert(parse_i64(v) == Some(1048576int));
}

proof fn lemma_default_int_32()
    ensures
        default_accepted(KeyModel { key: Seq::empty(), default: "32"@, kind: Kind::Int { min: 1 }, desc: Seq::empty() }),
{
    reveal_strlit("32");
    let v = "32"@;
    lemma_trim_plain(v);
    reveal_with_fuel(crate::util::digits_value, 3);
    assert(parse_i64(v) == Some(32int));
}

proof fn lemma_default_int_524288()
    ensures
        default_accepted(KeyModel { key: Seq::empty(), default: "524288"@, kind: Kind::Int { min: 0 }, desc: Seq::empty() }),
{
    reveal_strlit("524288");
    let v = "524288"@;
    lemma_trim_plain(v);
    reveal_with_fuel(crate::util::digits_value, 7);
    assert(parse_i64(v) == Some(524288int));
}

proof fn lemma_default_text_zstd_3()
    ensures
        default_accepted(KeyModel { key: Seq::empty(), default: "zstd(3)"@, kind: Kind::Text, desc: Seq::empty() }),
{
    reveal_strlit("zstd(3)");
    let v = "zstd(3)"@;
    lemma_trim_plain(v);
}

proof fn lemma_default_int_1048576_()
    ensures
        default_accepted(KeyModel { key: Seq::empty(), default: "1048576"@, kind: Kind::Int { min: 1 }, desc: Seq::empty() }),
{
    reveal_strlit("1048576");
    let v = "1048576"@;
    lemma_trim_plain(v);
    reveal_with_fuel(crate::util::digits_value, 8);
    assert(parse_i64(v) == Some(1048576int));
}

proof fn lemma_default_statisticslevel_page()
    ensures
        default_accepted(KeyModel { key: Seq::empty(), default: "page"@, kind: Kind::Enum(Choices::StatisticsLevel), desc: Seq::empty() }),
{
    reveal_strlit("page");
    let v = "page"@;
    lemma_trim_plain(v);
    let o = choice_options(Choices::StatisticsLevel);
    assert(lower_seq(o[2]) == lower_seq(v));
}

proof fn lemma_default_int_3()
    ensures
        default_accepted(KeyModel { key: Seq::empty(), default: "3"@, kind: Kind::Int { min: 1 }, desc: Seq::empty() }),
{
    reveal_strlit("3");
    let v = "3"@;
    lemma_trim_plain(v);
    reveal_with_fuel(crate::util::digits_value, 2);
    assert(parse_i64(v) == Some(3int));
}

proof fn lemma_default_int_20()
    ensures
        default_accepted(KeyModel { key: Seq::empty(), default: "20"@, kind: Kind::Int { min: 0 }, desc: Seq::empty() }),
{
    reveal_strlit("20");
    let v = "20"@;
    lemma_trim_plain(v);
    reveal_with_fuel(crate::util::digits_value, 3);
    assert(parse_i64(v) == Some(20int));
}

proof fn lemma_default_explainformat_indent()
    ensures
        default_accepted(KeyModel { key: Seq::empty(), default: "indent"@, kind: Kind::Enum(Choices::ExplainFormat), desc: Seq::empty() }),
{
    reveal_strlit("indent");
    let v = "indent"@;
    lemma_trim_plain(v);
    let o = choice_options(Choices::ExplainFormat);
    assert(lower_seq(o[0]) == lower_seq(v));
}

proof fn lemma_default_text_generic()
    ensures
        default_accepted(KeyModel { key: Seq::empty(), default: "generic"@, kind: Kind::Text, desc: Seq::empty() }),
{
    reveal_strlit("generic");
    let v = "generic"@;
    lemma_trim_plain(v);
}

proof fn lemma_default_nullordering_nulls_max()
    ensures
        default_accepted(KeyModel { key: Seq::empty(), default: "nulls_max"@, kind: Kind::Enum(Choices::NullOrdering), desc: Seq::empty() }),
{
    reveal_strlit("nulls_max");
    let v = "nulls_max"@;
    lemma_trim_plain(v);
    let o = choice_options(Choices::NullOrdering);
    assert(lower_seq(o[0]) == lower_seq(v));
}

proof fn lemma_default_int_50()
    ensures
        default_accepted(KeyModel { key: Seq::empty(), default: "50"@, kind: Kind::Int { min: 1 }, desc: Seq::empty() }),
{
    reveal_strlit("50");
    let v = "50"@;
    lemma_trim_plain(v);
    reveal_with_fuel(crate::util::digits_value, 3);
    assert(parse_i64(v) == Some(50int));
}

proof fn lemma_default_text_null()
    ensures
        default_accepted(KeyModel { key: Seq::empty(), default: "NULL"@, kind: Kind::Text, desc: Seq::empty() }),
{
    reveal_strlit("NULL");
    let v = "NULL"@;
    lemma_trim_plain(v);
}

proof fn lemma_default_text_y_m_d()
    ensures
        default_accepted(KeyModel { key: Seq::empty(), default: "%Y-%m-%d"@, kind: Kind::Text, desc: Seq::empty() }),
{
    reveal_strlit("%Y-%m-%d");
    let v = "%Y-%m-%d"@;
    lemma_trim_plain(v);
}

proof fn lemma_default_text_y_m_dt_h_m_s_f()
    ensures
        default_accepted(KeyModel { key: Seq::empty(), default: "%Y-%m-%dT%H:%M:%S%.f"@, kind: Kind::Text, desc: Seq::empty() }),
{
    reveal_strlit("%Y-%m-%dT%H:%M:%S%.f");
    let v = "%Y-%m-%dT%H:%M:%S%.f"@;
    lemma_trim_plain(v);
}

proof fn lemma_default_text_h_m_s_f()
    ensures
        default_accepted(KeyModel { key: Seq::empty(), default: "%H:%M:%S%.f"@, kind: Kind::Text, desc: Seq::empty() }),
{
    reveal_strlit("%H:%M:%S%.f");
    let v = "%H:%M:%S%.f"@;
    lemma_trim_plain(v);
}

proof fn lemma_default_durationformat_pretty()
    ensures
        default_accepted(KeyModel { key: Seq::empty(), default: "pretty"@, kind: Kind::Enum(Choices::DurationFormat), desc: Seq::empty() }),
{
    reveal_strlit("pretty");
    let v = "pretty"@;
    lemma_trim_plain(v);
    let o = choice_options(Choices::DurationFormat);
    assert(lower_seq(o[0]) == lower_seq(v));
}

proof fn lemma_default_bytes_blank()
    ensures
        default_accepted(KeyModel { key: Seq::empty(), default: ""@, kind: Kind::Bytes, desc: Seq::empty() }),
{
    reveal_strlit("");
    assert(trim(""@) =~= Seq::<char>::empty());
}

proof fn lemma_default_bytes_100g()
    ensures
        default_accepted(KeyModel { key: Seq::empty(), default: "100G"@, kind: Kind::Bytes, desc: Seq::empty() }),
{
    reveal_strlit("100G");
    let v = "100G"@;
    lemma_trim_plain(v);
    reveal_with_fuel(crate::util::number_len, 6);
    assert(v.take(crate::util::number_len(v) as int).len() > 0);
}

proof fn lemma_default_text_blank()
    ensures
        default_accepted(KeyModel { key: Seq::empty(), default: ""@, kind: Kind::Text, desc: Seq::empty() }),
{
    reveal_strlit("");
    assert(trim(""@) =~= Seq::<char>::empty());
}

proof fn lemma_default_bytes_50m()
    ensures
        default_accepted(KeyModel { key: Seq::empty(), default: "50M"@, kind: Kind::Bytes, desc: Seq::empty() }),
{
    reveal_strlit("50M");
    let v = "50M"@;
    lemma_trim_plain(v);
    reveal_with_fuel(crate::util::number_len, 6);
    assert(v.take(crate::util::number_len(v) as int).len() > 0);
}

proof fn lemma_default_bytes_1m()
    ensures
        default_accepted(KeyModel { key: Seq::empty(), default: "1M"@, kind: Kind::Bytes, desc: Seq::empty() }),
{
    reveal_strlit("1M");
    let v = "1M"@;
    lemma_trim_plain(v);
    reveal_with_fuel(crate::util::number_len, 6);
    assert(v.take(crate::util::number_len(v) as int).len() > 0);
}

proof fn lemma_default_duration_blank()
    ensures
        default_accepted(KeyModel { key: Seq::empty(), default: ""@, kind: Kind::Duration, desc: Seq::empty() }),
{
    reveal_strlit("");
    assert(trim(""@) =~= Seq::<char>::empty());
}

/// **Every built-in default passes its own key's check**: blank, or accepted by the key's
/// kind, so the editor never flags a value the engine ships with.
pub proof fn law_defaults_pass_their_own_check(i: int)
    requires
        0 <= i < engine_table().len(),
    ensures
        default_accepted(engine_table()[i]),
{
    let t = engine_table();
    if i == 0 {
        lemma_default_bool_false();
        assert(t[0].default == "false"@ && t[0].kind == Kind::Bool);
    }
    if i == 1 {
        lemma_default_bool_false();
        assert(t[1].default == "false"@ && t[1].kind == Kind::Bool);
    }
    if i == 2 {
        lemma_default_int_8192();
        assert(t[2].default == "8192"@ && t[2].kind == Kind::Int { min: 1 });
    }
    if i == 3 {
        lemma_default_int_0();
        assert(t[3].default == "0"@ && t[3].kind == Kind::Int { min: 0 });
    }
    if i == 4 {
        lemma_default_timezone_00_00();
        assert(t[4].default == "+00:00"@ && t[4].kind == Kind::TimeZone);
    }
    if i == 5 {
        lemma_default_bool_true();
        assert(t[5].default == "true"@ && t[5].kind == Kind::Bool);
    }
    if i == 6 {
        lemma_default_bool_true();
        assert(t[6].default == "true"@ && t[6].kind == Kind::Bool);
    }
    if i == 7 {
        lemma_default_int_0();
        assert(t[7].default == "0"@ && t[7].kind == Kind::Int { min: 0 });
    }
    if i == 8 {
        lemma_default_spillcompression_uncompressed();
        assert(t[8].default == "uncompressed"@ && t[8].kind == Kind::Enum(Choices::SpillCompression));
    }
    if i == 9 {
        lemma_default_int_10485760();
        assert(t[9].default == "10485760"@ && t[9].kind == Kind::Int { min: 0 });
    }
    if i == 10 {
        lemma_default_int_1048576();
        assert(t[10].default == "1048576"@ && t[10].kind == Kind::Int { min: 0 });
    }
    if i == 11 {
        lemma_default_int_32();
        assert(t[11].default == "32"@ && t[11].kind == Kind::Int { min: 1 });
    }
    if i == 12 {
        lemma_default_bool_true();
        assert(t[12].default == "true"@ && t[12].kind == Kind::Bool);
    }
    if i == 13 {
        lemma_default_bool_false();
        assert(t[13].default == "false"@ && t[13].kind == Kind::Bool);
    }
    if i == 14 {
        lemma_default_bool_true();
        assert(t[14].default == "true"@ && t[14].kind == Kind::Bool);
    }
    if i == 15 {
        lemma_default_bool_true();
        assert(t[15].default == "true"@ && t[15].kind == Kind::Bool);
    }
    if i == 16 {
        lemma_default_bool_false();
        assert(t[16].default == "false"@ && t[16].kind == Kind::Bool);
    }
    if i == 17 {
        lemma_default_bool_false();
        assert(t[17].default == "false"@ && t[17].kind == Kind::Bool);
    }
    if i == 18 {
        lemma_default_int_524288();
        assert(t[18].default == "524288"@ && t[18].kind == Kind::Int { min: 0 });
    }
    if i == 19 {
        lemma_default_text_zstd_3();
        assert(t[19].default == "zstd(3)"@ && t[19].kind == Kind::Text);
    }
    if i == 20 {
        lemma_default_int_1048576_();
        assert(t[20].default == "1048576"@ && t[20].kind == Kind::Int { min: 1 });
    }
    if i == 21 {
        lemma_default_statisticslevel_page();
        assert(t[21].default == "page"@ && t[21].kind == Kind::Enum(Choices::StatisticsLevel));
    }
    if i == 22 {
        lemma_default_bool_true();
        assert(t[22].default == "true"@ && t[22].kind == Kind::Bool);
    }
    if i == 23 {
        lemma_default_bool_true();
        assert(t[23].default == "true"@ && t[23].kind == Kind::Bool);
    }
    if i == 24 {
        lemma_default_bool_true();
        assert(t[24].default == "true"@ && t[24].kind == Kind::Bool);
    }
    if i == 25 {
        lemma_default_bool_true();
        assert(t[25].default == "true"@ && t[25].kind == Kind::Bool);
    }
    if i == 26 {
        lemma_default_bool_true();
        assert(t[26].default == "true"@ && t[26].kind == Kind::Bool);
    }
    if i == 27 {
        lemma_default_int_10485760();
        assert(t[27].default == "10485760"@ && t[27].kind == Kind::Int { min: 0 });
    }
    if i == 28 {
        lemma_default_bool_true();
        assert(t[28].default == "true"@ && t[28].kind == Kind::Bool);
    }
    if i == 29 {
        lemma_default_bool_true();
        assert(t[29].default == "true"@ && t[29].kind == Kind::Bool);
    }
    if i == 30 {
        lemma_default_bool_true();
        assert(t[30].default == "true"@ && t[30].kind == Kind::Bool);
    }
    if i == 31 {
        lemma_default_bool_false();
        assert(t[31].default == "false"@ && t[31].kind == Kind::Bool);
    }
    if i == 32 {
        lemma_default_int_3();
        assert(t[32].default == "3"@ && t[32].kind == Kind::Int { min: 1 });
    }
    if i == 33 {
        lemma_default_int_20();
        assert(t[33].default == "20"@ && t[33].kind == Kind::Int { min: 0 });
    }
    if i == 34 {
        lemma_default_int_1048576();
        assert(t[34].default == "1048576"@ && t[34].kind == Kind::Int { min: 0 });
    }
    if i == 35 {
        lemma_default_bool_false();
        assert(t[35].default == "false"@ && t[35].kind == Kind::Bool);
    }
    if i == 36 {
        lemma_default_bool_false();
        assert(t[36].default == "false"@ && t[36].kind == Kind::Bool);
    }
    if i == 37 {
        lemma_default_bool_false();
        assert(t[37].default == "false"@ && t[37].kind == Kind::Bool);
    }
    if i == 38 {
        lemma_default_bool_true();
        assert(t[38].default == "true"@ && t[38].kind == Kind::Bool);
    }
    if i == 39 {
        lemma_default_explainformat_indent();
        assert(t[39].default == "indent"@ && t[39].kind == Kind::Enum(Choices::ExplainFormat));
    }
    if i == 40 {
        lemma_default_text_generic();
        assert(t[40].default == "generic"@ && t[40].kind == Kind::Text);
    }
    if i == 41 {
        lemma_default_nullordering_nulls_max();
        assert(t[41].default == "nulls_max"@ && t[41].kind == Kind::Enum(Choices::NullOrdering));
    }
    if i == 42 {
        lemma_default_bool_true();
        assert(t[42].default == "true"@ && t[42].kind == Kind::Bool);
    }
    if i == 43 {
        lemma_default_bool_false();
        assert(t[43].default == "false"@ && t[43].kind == Kind::Bool);
    }
    if i == 44 {
        lemma_default_bool_true();
        assert(t[44].default == "true"@ && t[44].kind == Kind::Bool);
    }
    if i == 45 {
        lemma_default_bool_true();
        assert(t[45].default == "true"@ && t[45].kind == Kind::Bool);
    }
    if i == 46 {
        lemma_default_int_50();
        assert(t[46].default == "50"@ && t[46].kind == Kind::Int { min: 1 });
    }
    if i == 47 {
        lemma_default_text_null();
        assert(t[47].default == "NULL"@ && t[47].kind == Kind::Text);
    }
    if i == 48 {
        lemma_default_text_y_m_d();
        assert(t[48].default == "%Y-%m-%d"@ && t[48].kind == Kind::Text);
    }
    if i == 49 {
        lemma_default_text_y_m_dt_h_m_s_f();
        assert(t[49].default == "%Y-%m-%dT%H:%M:%S%.f"@ && t[49].kind == Kind::Text);
    }
    if i == 50 {
        lemma_default_text_y_m_dt_h_m_s_f();
        assert(t[50].default == "%Y-%m-%dT%H:%M:%S%.f"@ && t[50].kind == Kind::Text);
    }
    if i == 51 {
        lemma_default_text_h_m_s_f();
        assert(t[51].default == "%H:%M:%S%.f"@ && t[51].kind == Kind::Text);
    }
    if i == 52 {
        lemma_default_durationformat_pretty();
        assert(t[52].default == "pretty"@ && t[52].kind == Kind::Enum(Choices::DurationFormat));
    }
    if i == 53 {
        lemma_default_bytes_blank();
        assert(t[53].default == ""@ && t[53].kind == Kind::Bytes);
    }
    if i == 54 {
        lemma_default_bytes_100g();
        assert(t[54].default == "100G"@ && t[54].kind == Kind::Bytes);
    }
    if i == 55 {
        lemma_default_text_blank();
        assert(t[55].default == ""@ && t[55].kind == Kind::Text);
    }
    if i == 56 {
        lemma_default_bytes_50m();
        assert(t[56].default == "50M"@ && t[56].kind == Kind::Bytes);
    }
    if i == 57 {
        lemma_default_bytes_1m();
        assert(t[57].default == "1M"@ && t[57].kind == Kind::Bytes);
    }
    if i == 58 {
        lemma_default_duration_blank();
        assert(t[58].default == ""@ && t[58].kind == Kind::Duration);
    }
}

/// The first runtime entry of the catalogue: the runtime keys close it.
pub open spec fn first_runtime_entry() -> int {
    53
}

/// **The catalogue's keys are clean**: each is its own trim, none is a key the app owns,
/// and the restart keys are exactly the `datafusion.runtime.*` entries, the last six.
pub proof fn law_catalogue_keys(i: int)
    requires
        0 <= i < engine_table().len(),
    ensures
        engine_table().len() == first_runtime_entry() + 6,
        trim(engine_table()[i].key) == engine_table()[i].key,
        !owned_key(engine_table()[i].key),
        starts_with(engine_table()[i].key, "datafusion.runtime."@) <==> first_runtime_entry() <= i,
{
    let t = engine_table();
    reveal_strlit("datafusion.catalog.default_catalog");
    reveal_strlit("datafusion.catalog.default_schema");
    reveal_strlit("datafusion.sql_parser.collect_spans");
    reveal_strlit("datafusion.runtime.");
    let p = "datafusion.runtime."@;
    let o0 = "datafusion.catalog.default_catalog"@;
    let o1 = "datafusion.catalog.default_schema"@;
    let o2 = "datafusion.sql_parser.collect_spans"@;
    if i == 0 {
        reveal_strlit("datafusion.catalog.information_schema");
        let k = t[0].key;
        assert(k == "datafusion.catalog.information_schema"@);
        lemma_trim_plain(k);
        assert(k.subrange(0, 19)[11] == k[11] && k[11] != p[11]);
    }
    if i == 1 {
        reveal_strlit("datafusion.catalog.newlines_in_values");
        let k = t[1].key;
        assert(k == "datafusion.catalog.newlines_in_values"@);
        lemma_trim_plain(k);
        assert(k.subrange(0, 19)[11] == k[11] && k[11] != p[11]);
    }
    if i == 2 {
        reveal_strlit("datafusion.execution.batch_size");
        let k = t[2].key;
        assert(k == "datafusion.execution.batch_size"@);
        lemma_trim_plain(k);
        assert(k.subrange(0, 19)[11] == k[11] && k[11] != p[11]);
    }
    if i == 3 {
        reveal_strlit("datafusion.execution.target_partitions");
        let k = t[3].key;
        assert(k == "datafusion.execution.target_partitions"@);
        lemma_trim_plain(k);
        assert(k.subrange(0, 19)[11] == k[11] && k[11] != p[11]);
    }
    if i == 4 {
        reveal_strlit("datafusion.execution.time_zone");
        let k = t[4].key;
        assert(k == "datafusion.execution.time_zone"@);
        lemma_trim_plain(k);
        assert(k.subrange(0, 19)[11] == k[11] && k[11] != p[11]);
    }
    if i == 5 {
        reveal_strlit("datafusion.execution.coalesce_batches");
        let k = t[5].key;
        assert(k == "datafusion.execution.coalesce_batches"@);
        lemma_trim_plain(k);
        assert(k.subrange(0, 19)[11] == k[11] && k[11] != p[11]);
    }
    if i == 6 {
        reveal_strlit("datafusion.execution.collect_statistics");
        let k = t[6].key;
        assert(k == "datafusion.execution.collect_statistics"@);
        lemma_trim_plain(k);
        assert(k.subrange(0, 19)[11] == k[11] && k[11] != p[11]);
    }
    if i == 7 {
        reveal_strlit("datafusion.execution.planning_concurrency");
        let k = t[7].key;
        assert(k == "datafusion.execution.planning_concurrency"@);
        lemma_trim_plain(k);
        assert(k.subrange(0, 19)[11] == k[11] && k[11] != p[11]);
    }
    if i == 8 {
        reveal_strlit("datafusion.execution.spill_compression");
        let k = t[8].key;
        assert(k == "datafusion.execution.spill_compression"@);
        lemma_trim_plain(k);
        assert(k.subrange(0, 19)[11] == k[11] && k[11] != p[11]);
    }
    if i == 9 {
        reveal_strlit("datafusion.execution.sort_spill_reservation_bytes");
        let k = t[9].key;
        assert(k == "datafusion.execution.sort_spill_reservation_bytes"@);
        lemma_trim_plain(k);
        assert(k.subrange(0, 19)[11] == k[11] && k[11] != p[11]);
    }
    if i == 10 {
        reveal_strlit("datafusion.execution.sort_in_place_threshold_bytes");
        let k = t[10].key;
        assert(k == "datafusion.execution.sort_in_place_threshold_bytes"@);
        lemma_trim_plain(k);
        assert(k.subrange(0, 19)[11] == k[11] && k[11] != p[11]);
    }
    if i == 11 {
        reveal_strlit("datafusion.execution.meta_fetch_concurrency");
        let k = t[11].key;
        assert(k == "datafusion.execution.meta_fetch_concurrency"@);
        lemma_trim_plain(k);
        assert(k.subrange(0, 19)[11] == k[11] && k[11] != p[11]);
    }
    if i == 12 {
        reveal_strlit("datafusion.execution.enable_recursive_ctes");
        let k = t[12].key;
        assert(k == "datafusion.execution.enable_recursive_ctes"@);
        lemma_trim_plain(k);
        assert(k.subrange(0, 19)[11] == k[11] && k[11] != p[11]);
    }
    if i == 13 {
        reveal_strlit("datafusion.execution.keep_partition_by_columns");
        let k = t[13].key;
        assert(k == "datafusion.execution.keep_partition_by_columns"@);
        lemma_trim_plain(k);
        assert(k.subrange(0, 19)[11] == k[11] && k[11] != p[11]);
    }
    if i == 14 {
        reveal_strlit("datafusion.execution.parquet.pruning");
        let k = t[14].key;
        assert(k == "datafusion.execution.parquet.pruning"@);
        lemma_trim_plain(k);
        assert(k.subrange(0, 19)[11] == k[11] && k[11] != p[11]);
    }
    if i == 15 {
        reveal_strlit("datafusion.execution.parquet.enable_page_index");
        let k = t[15].key;
        assert(k == "datafusion.execution.parquet.enable_page_index"@);
        lemma_trim_plain(k);
        assert(k.subrange(0, 19)[11] == k[11] && k[11] != p[11]);
    }
    if i == 16 {
        reveal_strlit("datafusion.execution.parquet.pushdown_filters");
        let k = t[16].key;
        assert(k == "datafusion.execution.parquet.pushdown_filters"@);
        lemma_trim_plain(k);
        assert(k.subrange(0, 19)[11] == k[11] && k[11] != p[11]);
    }
    if i == 17 {
        reveal_strlit("datafusion.execution.parquet.reorder_filters");
        let k = t[17].key;
        assert(k == "datafusion.execution.parquet.reorder_filters"@);
        lemma_trim_plain(k);
        assert(k.subrange(0, 19)[11] == k[11] && k[11] != p[11]);
    }
    if i == 18 {
        reveal_strlit("datafusion.execution.parquet.metadata_size_hint");
        let k = t[18].key;
        assert(k == "datafusion.execution.parquet.metadata_size_hint"@);
        lemma_trim_plain(k);
        assert(k.subrange(0, 19)[11] == k[11] && k[11] != p[11]);
    }
    if i == 19 {
        reveal_strlit("datafusion.execution.parquet.compression");
        let k = t[19].key;
        assert(k == "datafusion.execution.parquet.compression"@);
        lemma_trim_plain(k);
        assert(k.subrange(0, 19)[11] == k[11] && k[11] != p[11]);
    }
    if i == 20 {
        reveal_strlit("datafusion.execution.parquet.max_row_group_size");
        let k = t[20].key;
        assert(k == "datafusion.execution.parquet.max_row_group_size"@);
        lemma_trim_plain(k);
        assert(k.subrange(0, 19)[11] == k[11] && k[11] != p[11]);
    }
    if i == 21 {
        reveal_strlit("datafusion.execution.parquet.statistics_enabled");
        let k = t[21].key;
        assert(k == "datafusion.execution.parquet.statistics_enabled"@);
        lemma_trim_plain(k);
        assert(k.subrange(0, 19)[11] == k[11] && k[11] != p[11]);
    }
    if i == 22 {
        reveal_strlit("datafusion.optimizer.prefer_hash_join");
        let k = t[22].key;
        assert(k == "datafusion.optimizer.prefer_hash_join"@);
        lemma_trim_plain(k);
        assert(k.subrange(0, 19)[11] == k[11] && k[11] != p[11]);
    }
    if i == 23 {
        reveal_strlit("datafusion.optimizer.repartition_joins");
        let k = t[23].key;
        assert(k == "datafusion.optimizer.repartition_joins"@);
        lemma_trim_plain(k);
        assert(k.subrange(0, 19)[11] == k[11] && k[11] != p[11]);
    }
    if i == 24 {
        reveal_strlit("datafusion.optimizer.repartition_aggregations");
        let k = t[24].key;
        assert(k == "datafusion.optimizer.repartition_aggregations"@);
        lemma_trim_plain(k);
        assert(k.subrange(0, 19)[11] == k[11] && k[11] != p[11]);
    }
    if i == 25 {
        reveal_strlit("datafusion.optimizer.repartition_sorts");
        let k = t[25].key;
        assert(k == "datafusion.optimizer.repartition_sorts"@);
        lemma_trim_plain(k);
        assert(k.subrange(0, 19)[11] == k[11] && k[11] != p[11]);
    }
    if i == 26 {
        reveal_strlit("datafusion.optimizer.repartition_file_scans");
        let k = t[26].key;
        assert(k == "datafusion.optimizer.repartition_file_scans"@);
        lemma_trim_plain(k);
        assert(k.subrange(0, 19)[11] == k[11] && k[11] != p[11]);
    }
    if i == 27 {
        reveal_strlit("datafusion.optimizer.repartition_file_min_size");
        let k = t[27].key;
        assert(k == "datafusion.optimizer.repartition_file_min_size"@);
        lemma_trim_plain(k);
        assert(k.subrange(0, 19)[11] == k[11] && k[11] != p[11]);
    }
    if i == 28 {
        reveal_strlit("datafusion.optimizer.enable_round_robin_repartition");
        let k = t[28].key;
        assert(k == "datafusion.optimizer.enable_round_robin_repartition"@);
        lemma_trim_plain(k);
        assert(k.subrange(0, 19)[11] == k[11] && k[11] != p[11]);
    }
    if i == 29 {
        reveal_strlit("datafusion.optimizer.enable_topk_aggregation");
        let k = t[29].key;
        assert(k == "datafusion.optimizer.enable_topk_aggregation"@);
        lemma_trim_plain(k);
        assert(k.subrange(0, 19)[11] == k[11] && k[11] != p[11]);
    }
    if i == 30 {
        reveal_strlit("datafusion.optimizer.enable_dynamic_filter_pushdown");
        let k = t[30].key;
        assert(k == "datafusion.optimizer.enable_dynamic_filter_pushdown"@);
        lemma_trim_plain(k);
        assert(k.subrange(0, 19)[11] == k[11] && k[11] != p[11]);
    }
    if i == 31 {
        reveal_strlit("datafusion.optimizer.skip_failed_rules");
        let k = t[31].key;
        assert(k == "datafusion.optimizer.skip_failed_rules"@);
        lemma_trim_plain(k);
        assert(k.subrange(0, 19)[11] == k[11] && k[11] != p[11]);
    }
    if i == 32 {
        reveal_strlit("datafusion.optimizer.max_passes");
        let k = t[32].key;
        assert(k == "datafusion.optimizer.max_passes"@);
        lemma_trim_plain(k);
        assert(k.subrange(0, 19)[11] == k[11] && k[11] != p[11]);
    }
    if i == 33 {
        reveal_strlit("datafusion.optimizer.default_filter_selectivity");
        let k = t[33].key;
        assert(k == "datafusion.optimizer.default_filter_selectivity"@);
        lemma_trim_plain(k);
        assert(k.subrange(0, 19)[11] == k[11] && k[11] != p[11]);
    }
    if i == 34 {
        reveal_strlit("datafusion.optimizer.hash_join_single_partition_threshold");
        let k = t[34].key;
        assert(k == "datafusion.optimizer.hash_join_single_partition_threshold"@);
        lemma_trim_plain(k);
        assert(k.subrange(0, 19)[11] == k[11] && k[11] != p[11]);
    }
    if i == 35 {
        reveal_strlit("datafusion.explain.logical_plan_only");
        let k = t[35].key;
        assert(k == "datafusion.explain.logical_plan_only"@);
        lemma_trim_plain(k);
        assert(k.subrange(0, 19)[11] == k[11] && k[11] != p[11]);
    }
    if i == 36 {
        reveal_strlit("datafusion.explain.physical_plan_only");
        let k = t[36].key;
        assert(k == "datafusion.explain.physical_plan_only"@);
        lemma_trim_plain(k);
        assert(k.subrange(0, 19)[11] == k[11] && k[11] != p[11]);
    }
    if i == 37 {
        reveal_strlit("datafusion.explain.show_statistics");
        let k = t[37].key;
        assert(k == "datafusion.explain.show_statistics"@);
        lemma_trim_plain(k);
        assert(k[11] != o0[11]);
        assert(k.subrange(0, 19)[11] == k[11] && k[11] != p[11]);
    }
    if i == 38 {
        reveal_strlit("datafusion.explain.show_sizes");
        let k = t[38].key;
        assert(k == "datafusion.explain.show_sizes"@);
        lemma_trim_plain(k);
        assert(k.subrange(0, 19)[11] == k[11] && k[11] != p[11]);
    }
    if i == 39 {
        reveal_strlit("datafusion.explain.format");
        let k = t[39].key;
        assert(k == "datafusion.explain.format"@);
        lemma_trim_plain(k);
        assert(k.subrange(0, 19)[11] == k[11] && k[11] != p[11]);
    }
    if i == 40 {
        reveal_strlit("datafusion.sql_parser.dialect");
        let k = t[40].key;
        assert(k == "datafusion.sql_parser.dialect"@);
        lemma_trim_plain(k);
        assert(k.subrange(0, 19)[11] == k[11] && k[11] != p[11]);
    }
    if i == 41 {
        reveal_strlit("datafusion.sql_parser.default_null_ordering");
        let k = t[41].key;
        assert(k == "datafusion.sql_parser.default_null_ordering"@);
        lemma_trim_plain(k);
        assert(k.subrange(0, 19)[11] == k[11] && k[11] != p[11]);
    }
    if i == 42 {
        reveal_strlit("datafusion.sql_parser.enable_ident_normalization");
        let k = t[42].key;
        assert(k == "datafusion.sql_parser.enable_ident_normalization"@);
        lemma_trim_plain(k);
        assert(k.subrange(0, 19)[11] == k[11] && k[11] != p[11]);
    }
    if i == 43 {
        reveal_strlit("datafusion.sql_parser.parse_float_as_decimal");
        let k = t[43].key;
        assert(k == "datafusion.sql_parser.parse_float_as_decimal"@);
        lemma_trim_plain(k);
        assert(k.subrange(0, 19)[11] == k[11] && k[11] != p[11]);
    }
    if i == 44 {
        reveal_strlit("datafusion.sql_parser.support_varchar_with_length");
        let k = t[44].key;
        assert(k == "datafusion.sql_parser.support_varchar_with_length"@);
        lemma_trim_plain(k);
        assert(k.subrange(0, 19)[11] == k[11] && k[11] != p[11]);
    }
    if i == 45 {
        reveal_strlit("datafusion.sql_parser.map_string_types_to_utf8view");
        let k = t[45].key;
        assert(k == "datafusion.sql_parser.map_string_types_to_utf8view"@);
        lemma_trim_plain(k);
        assert(k.subrange(0, 19)[11] == k[11] && k[11] != p[11]);
    }
    if i == 46 {
        reveal_strlit("datafusion.sql_parser.recursion_limit");
        let k = t[46].key;
        assert(k == "datafusion.sql_parser.recursion_limit"@);
        lemma_trim_plain(k);
        assert(k.subrange(0, 19)[11] == k[11] && k[11] != p[11]);
    }
    if i == 47 {
        reveal_strlit("datafusion.format.null");
        let k = t[47].key;
        assert(k == "datafusion.format.null"@);
        lemma_trim_plain(k);
        assert(k.subrange(0, 19)[11] == k[11] && k[11] != p[11]);
    }
    if i == 48 {
        reveal_strlit("datafusion.format.date_format");
        let k = t[48].key;
        assert(k == "datafusion.format.date_format"@);
        lemma_trim_plain(k);
        assert(k.subrange(0, 19)[11] == k[11] && k[11] != p[11]);
    }
    if i == 49 {
        reveal_strlit("datafusion.format.datetime_format");
        let k = t[49].key;
        assert(k == "datafusion.format.datetime_format"@);
        lemma_trim_plain(k);
        assert(k[11] != o1[11]);
        assert(k.subrange(0, 19)[11] == k[11] && k[11] != p[11]);
    }
    if i == 50 {
        reveal_strlit("datafusion.format.timestamp_format");
        let k = t[50].key;
        assert(k == "datafusion.format.timestamp_format"@);
        lemma_trim_plain(k);
        assert(k[11] != o0[11]);
        assert(k.subrange(0, 19)[11] == k[11] && k[11] != p[11]);
    }
    if i == 51 {
        reveal_strlit("datafusion.format.time_format");
        let k = t[51].key;
        assert(k == "datafusion.format.time_format"@);
        lemma_trim_plain(k);
        assert(k.subrange(0, 19)[11] == k[11] && k[11] != p[11]);
    }
    if i == 52 {
        reveal_strlit("datafusion.format.duration_format");
        let k = t[52].key;
        assert(k == "datafusion.format.duration_format"@);
        lemma_trim_plain(k);
        assert(k[11] != o1[11]);
        assert(k.subrange(0, 19)[11] == k[11] && k[11] != p[11]);
    }
    if i == 53 {
        reveal_strlit("datafusion.runtime.memory_limit");
        let k = t[53].key;
        assert(k == "datafusion.runtime.memory_limit"@);
        lemma_trim_plain(k);
        assert(k.subrange(0, 19) =~= p);
    }
    if i == 54 {
        reveal_strlit("datafusion.runtime.max_temp_directory_size");
        let k = t[54].key;
        assert(k == "datafusion.runtime.max_temp_directory_size"@);
        lemma_trim_plain(k);
        assert(k.subrange(0, 19) =~= p);
    }
    if i == 55 {
        reveal_strlit("datafusion.runtime.temp_directory");
        let k = t[55].key;
        assert(k == "datafusion.runtime.temp_directory"@);
        lemma_trim_plain(k);
        assert(k[11] != o1[11]);
        assert(k.subrange(0, 19) =~= p);
    }
    if i == 56 {
        reveal_strlit("datafusion.runtime.metadata_cache_limit");
        let k = t[56].key;
        assert(k == "datafusion.runtime.metadata_cache_limit"@);
        lemma_trim_plain(k);
        assert(k.subrange(0, 19) =~= p);
    }
    if i == 57 {
        reveal_strlit("datafusion.runtime.list_files_cache_limit");
        let k = t[57].key;
        assert(k == "datafusion.runtime.list_files_cache_limit"@);
        lemma_trim_plain(k);
        assert(k.subrange(0, 19) =~= p);
    }
    if i == 58 {
        reveal_strlit("datafusion.runtime.list_files_cache_ttl");
        let k = t[58].key;
        assert(k == "datafusion.runtime.list_files_cache_ttl"@);
        lemma_trim_plain(k);
        assert(k.subrange(0, 19) =~= p);
    }
}

/// The catalogue entry a key names, read off its length and a few of its characters: a
/// decision that tells every key of the catalogue from every other.
pub open spec fn key_slot(k: Seq<char>) -> int {
    if k.len() == 37 {
        if k[21] == 'f' {
            0
        } else if k[21] == 'w' {
            1
        } else if k[21] == 'c' {
            5
        } else if k[21] == 'p' {
            22
        } else if k[21] == 'y' {
            36
        } else {
            46
        }
    } else if k.len() == 31 {
        if k[11] == 'e' {
            2
        } else if k[11] == 'o' {
            32
        } else {
            53
        }
    } else if k.len() == 38 {
        if k[21] == 't' {
            3
        } else if k[21] == 's' {
            if k[11] == 'e' {
                8
            } else {
                31
            }
        } else {
            if k[33] == 'j' {
                23
            } else {
                25
            }
        }
    } else if k.len() == 30 {
        4
    } else if k.len() == 39 {
        if k[19] == 'n' {
            6
        } else if k[19] == 'm' {
            56
        } else {
            58
        }
    } else if k.len() == 41 {
        if k[11] == 'e' {
            7
        } else {
            57
        }
    } else if k.len() == 49 {
        if k[11] == 'e' {
            9
        } else {
            44
        }
    } else if k.len() == 50 {
        if k[11] == 'e' {
            10
        } else {
            45
        }
    } else if k.len() == 43 {
        if k[11] == 'e' {
            11
        } else if k[11] == 'o' {
            26
        } else {
            41
        }
    } else if k.len() == 42 {
        if k[11] == 'e' {
            12
        } else {
            54
        }
    } else if k.len() == 46 {
        if k[21] == 'k' {
            13
        } else if k[21] == 'p' {
            15
        } else {
            27
        }
    } else if k.len() == 36 {
        if k[13] == 'e' {
            14
        } else {
            35
        }
    } else if k.len() == 45 {
        if k[11] == 'e' {
            16
        } else {
            24
        }
    } else if k.len() == 44 {
        if k[11] == 'e' {
            17
        } else if k[11] == 'o' {
            29
        } else {
            43
        }
    } else if k.len() == 47 {
        if k[30] == 'e' {
            18
        } else if k[30] == 'a' {
            20
        } else if k[30] == 't' {
            21
        } else {
            33
        }
    } else if k.len() == 40 {
        19
    } else if k.len() == 51 {
        if k[28] == 'r' {
            28
        } else {
            30
        }
    } else if k.len() == 57 {
        34
    } else if k.len() == 34 {
        if k[11] == 'e' {
            37
        } else {
            50
        }
    } else if k.len() == 29 {
        if k[18] == '.' {
            38
        } else if k[18] == 's' {
            40
        } else if k[18] == 'd' {
            48
        } else {
            51
        }
    } else if k.len() == 25 {
        39
    } else if k.len() == 48 {
        42
    } else if k.len() == 22 {
        47
    } else {
        if k[19] == 'a' {
            49
        } else if k[19] == 'u' {
            52
        } else {
            55
        }
    }
}

/// Every catalogue key lands in its own slot.
proof fn lemma_key_slot(i: int)
    requires
        0 <= i < engine_table().len(),
    ensures
        key_slot(engine_table()[i].key) == i,
{
    let t = engine_table();
    if i == 0 {
        reveal_strlit("datafusion.catalog.information_schema");
        assert(t[0].key == "datafusion.catalog.information_schema"@);
    }
    if i == 1 {
        reveal_strlit("datafusion.catalog.newlines_in_values");
        assert(t[1].key == "datafusion.catalog.newlines_in_values"@);
    }
    if i == 2 {
        reveal_strlit("datafusion.execution.batch_size");
        assert(t[2].key == "datafusion.execution.batch_size"@);
    }
    if i == 3 {
        reveal_strlit("datafusion.execution.target_partitions");
        assert(t[3].key == "datafusion.execution.target_partitions"@);
    }
    if i == 4 {
        reveal_strlit("datafusion.execution.time_zone");
        assert(t[4].key == "datafusion.execution.time_zone"@);
    }
    if i == 5 {
        reveal_strlit("datafusion.execution.coalesce_batches");
        assert(t[5].key == "datafusion.execution.coalesce_batches"@);
    }
    if i == 6 {
        reveal_strlit("datafusion.execution.collect_statistics");
        assert(t[6].key == "datafusion.execution.collect_statistics"@);
    }
    if i == 7 {
        reveal_strlit("datafusion.execution.planning_concurrency");
        assert(t[7].key == "datafusion.execution.planning_concurrency"@);
    }
    if i == 8 {
        reveal_strlit("datafusion.execution.spill_compression");
        assert(t[8].key == "datafusion.execution.spill_compression"@);
    }
    if i == 9 {
        reveal_strlit("datafusion.execution.sort_spill_reservation_bytes");
        assert(t[9].key == "datafusion.execution.sort_spill_reservation_bytes"@);
    }
    if i == 10 {
        reveal_strlit("datafusion.execution.sort_in_place_threshold_bytes");
        assert(t[10].key == "datafusion.execution.sort_in_place_threshold_bytes"@);
    }
    if i == 11 {
        reveal_strlit("datafusion.execution.meta_fetch_concurrency");
        assert(t[11].key == "datafusion.execution.meta_fetch_concurrency"@);
    }
    if i == 12 {
        reveal_strlit("datafusion.execution.enable_recursive_ctes");
        assert(t[12].key == "datafusion.execution.enable_recursive_ctes"@);
    }
    if i == 13 {
        reveal_strlit("datafusion.execution.keep_partition_by_columns");
        assert(t[13].key == "datafusion.execution.keep_partition_by_columns"@);
    }
    if i == 14 {
        reveal_strlit("datafusion.execution.parquet.pruning");
        assert(t[14].key == "datafusion.execution.parquet.pruning"@);
    }
    if i == 15 {
        reveal_strlit("datafusion.execution.parquet.enable_page_index");
        assert(t[15].key == "datafusion.execution.parquet.enable_page_index"@);
    }
    if i == 16 {
        reveal_strlit("datafusion.execution.parquet.pushdown_filters");
        assert(t[16].key == "datafusion.execution.parquet.pushdown_filters"@);
    }
    if i == 17 {
        reveal_strlit("datafusion.execution.parquet.reorder_filters");
        assert(t[17].key == "datafusion.execution.parquet.reorder_filters"@);
    }
    if i == 18 {
        reveal_strlit("datafusion.execution.parquet.metadata_size_hint");
        assert(t[18].key == "datafusion.execution.parquet.metadata_size_hint"@);
    }
    if i == 19 {
        reveal_strlit("datafusion.execution.parquet.compression");
        assert(t[19].key == "datafusion.execution.parquet.compression"@);
    }
    if i == 20 {
        reveal_strlit("datafusion.execution.parquet.max_row_group_size");
        assert(t[20].key == "datafusion.execution.parquet.max_row_group_size"@);
    }
    if i == 21 {
        reveal_strlit("datafusion.execution.parquet.statistics_enabled");
        assert(t[21].key == "datafusion.execution.parquet.statistics_enabled"@);
    }
    if i == 22 {
        reveal_strlit("datafusion.optimizer.prefer_hash_join");
        assert(t[22].key == "datafusion.optimizer.prefer_hash_join"@);
    }
    if i == 23 {
        reveal_strlit("datafusion.optimizer.repartition_joins");
        assert(t[23].key == "datafusion.optimizer.repartition_joins"@);
    }
    if i == 24 {
        reveal_strlit("datafusion.optimizer.repartition_aggregations");
        assert(t[24].key == "datafusion.optimizer.repartition_aggregations"@);
    }
    if i == 25 {
        reveal_strlit("datafusion.optimizer.repartition_sorts");
        assert(t[25].key == "datafusion.optimizer.repartition_sorts"@);
    }
    if i == 26 {
        reveal_strlit("datafusion.optimizer.repartition_file_scans");
        assert(t[26].key == "datafusion.optimizer.repartition_file_scans"@);
    }
    if i == 27 {
        reveal_strlit("datafusion.optimizer.repartition_file_min_size");
        assert(t[27].key == "datafusion.optimizer.repartition_file_min_size"@);
    }
    if i == 28 {
        reveal_strlit("datafusion.optimizer.enable_round_robin_repartition");
        assert(t[28].key == "datafusion.optimizer.enable_round_robin_repartition"@);
    }
    if i == 29 {
        reveal_strlit("datafusion.optimizer.enable_topk_aggregation");
        assert(t[29].key == "datafusion.optimizer.enable_topk_aggregation"@);
    }
    if i == 30 {
        reveal_strlit("datafusion.optimizer.enable_dynamic_filter_pushdown");
        assert(t[30].key == "datafusion.optimizer.enable_dynamic_filter_pushdown"@);
    }
    if i == 31 {
        reveal_strlit("datafusion.optimizer.skip_failed_rules");
        assert(t[31].key == "datafusion.optimizer.skip_failed_rules"@);
    }
    if i == 32 {
        reveal_strlit("datafusion.optimizer.max_passes");
        assert(t[32].key == "datafusion.optimizer.max_passes"@);
    }
    if i == 33 {
        reveal_strlit("datafusion.optimizer.default_filter_selectivity");
        assert(t[33].key == "datafusion.optimizer.default_filter_selectivity"@);
    }
    if i == 34 {
        reveal_strlit("datafusion.optimizer.hash_join_single_partition_threshold");
        assert(t[34].key == "datafusion.optimizer.hash_join_single_partition_threshold"@);
    }
    if i == 35 {
        reveal_strlit("datafusion.explain.logical_plan_only");
        assert(t[35].key == "datafusion.explain.logical_plan_only"@);
    }
    if i == 36 {
        reveal_strlit("datafusion.explain.physical_plan_only");
        assert(t[36].key == "datafusion.explain.physical_plan_only"@);
    }
    if i == 37 {
        reveal_strlit("datafusion.explain.show_statistics");
        assert(t[37].key == "datafusion.explain.show_statistics"@);
    }
    if i == 38 {
        reveal_strlit("datafusion.explain.show_sizes");
        assert(t[38].key == "datafusion.explain.show_sizes"@);
    }
    if i == 39 {
        reveal_strlit("datafusion.explain.format");
        assert(t[39].key == "datafusion.explain.format"@);
    }
    if i == 40 {
        reveal_strlit("datafusion.sql_parser.dialect");
        assert(t[40].key == "datafusion.sql_parser.dialect"@);
    }
    if i == 41 {
        reveal_strlit("datafusion.sql_parser.default_null_ordering");
        assert(t[41].key == "datafusion.sql_parser.default_null_ordering"@);
    }
    if i == 42 {
        reveal_strlit("datafusion.sql_parser.enable_ident_normalization");
        assert(t[42].key == "datafusion.sql_parser.enable_ident_normalization"@);
    }
    if i == 43 {
        reveal_strlit("datafusion.sql_parser.parse_float_as_decimal");
        assert(t[43].key == "datafusion.sql_parser.parse_float_as_decimal"@);
    }
    if i == 44 {
        reveal_strlit("datafusion.sql_parser.support_varchar_with_length");
        assert(t[44].key == "datafusion.sql_parser.support_varchar_with_length"@);
    }
    if i == 45 {
        reveal_strlit("datafusion.sql_parser.map_string_types_to_utf8view");
        assert(t[45].key == "datafusion.sql_parser.map_string_types_to_utf8view"@);
    }
    if i == 46 {
        reveal_strlit("datafusion.sql_parser.recursion_limit");
        assert(t[46].key == "datafusion.sql_parser.recursion_limit"@);
    }
    if i == 47 {
        reveal_strlit("datafusion.format.null");
        assert(t[47].key == "datafusion.format.null"@);
    }
    if i == 48 {
        reveal_strlit("datafusion.format.date_format");
        assert(t[48].key == "datafusion.format.date_format"@);
    }
    if i == 49 {
        reveal_strlit("datafusion.format.datetime_format");
        assert(t[49].key == "datafusion.format.datetime_format"@);
    }
    if i == 50 {
        reveal_strlit("datafusion.format.timestamp_format");
        assert(t[50].key == "datafusion.format.timestamp_format"@);
    }
    if i == 51 {
        reveal_strlit("datafusion.format.time_format");
        assert(t[51].key == "datafusion.format.time_format"@);
    }
    if i == 52 {
        reveal_strlit("datafusion.format.duration_format");
        assert(t[52].key == "datafusion.format.duration_format"@);
    }
    if i == 53 {
        reveal_strlit("datafusion.runtime.memory_limit");
        assert(t[53].key == "datafusion.runtime.memory_limit"@);
    }
    if i == 54 {
        reveal_strlit("datafusion.runtime.max_temp_directory_size");
        assert(t[54].key == "datafusion.runtime.max_temp_directory_size"@);
    }
    if i == 55 {
        reveal_strlit("datafusion.runtime.temp_directory");
        assert(t[55].key == "datafusion.runtime.temp_directory"@);
    }
    if i == 56 {
        reveal_strlit("datafusion.runtime.metadata_cache_limit");
        assert(t[56].key == "datafusion.runtime.metadata_cache_limit"@);
    }
    if i == 57 {
        reveal_strlit("datafusion.runtime.list_files_cache_limit");
        assert(t[57].key == "datafusion.runtime.list_files_cache_limit"@);
    }
    if i == 58 {
        reveal_strlit("datafusion.runtime.list_files_cache_ttl");
        assert(t[58].key == "datafusion.runtime.list_files_cache_ttl"@);
    }
}

/// **No key is catalogued twice.**
pub proof fn law_catalogue_keys_distinct(i: int, j: int)
    requires
        0 <= i < j < engine_table().len(),
    ensures
        engine_table()[i].key != engine_table()[j].key,
{
    lemma_key_slot(i);
    lemma_key_slot(j);
}

/// **Looking a catalogue key up finds its own entry**, so `key_def` answers each key with the
/// entry that holds it.
pub proof fn law_lookup_finds_each_entry(i: int)
    requires
        0 <= i < engine_table().len(),
    ensures
        lookup_key(engine_table()[i].key) == Some(engine_table()[i]),
{
    let t = engine_table();
    law_catalogue_keys(i);
    assert forall|j: int| 0 <= j < t.len() && t[j].key == t[i].key implies j == i by {
        if j < i {
            law_catalogue_keys_distinct(j, i);
        } else if i < j {
            law_catalogue_keys_distinct(i, j);
        }
    }
    assert(0 <= i < t.len() && t[i].key == t[i].key);
    let k = choose|k: int| 0 <= k < t.len() && t[k].key == t[i].key && forall|m: int| 0 <= m < k ==> t[m].key != t[i].key;
    assert(t[k].key == t[i].key);
}

} // verus!
