use std::collections::BTreeMap;

use strata_core::config::{
    effective, engine_keys, is_owned_key, is_restart_key, key_def, value_error, Choices, Kind,
};
use strata_core::util::{parse_duration, parse_i64_chars, plural};

#[test]
fn a_known_key_is_found_through_surrounding_whitespace() {
    let e = key_def("  datafusion.execution.batch_size ").expect("catalogued");
    assert_eq!(e.key, "datafusion.execution.batch_size");
    assert_eq!(e.default, "8192");
    assert_eq!(e.kind, Kind::Int { min: 1 });
    assert!(key_def("datafusion.execution.no_such_key").is_none());
    assert!(key_def("").is_none());
}

#[test]
fn the_catalog_holds_no_owned_key_and_no_key_twice() {
    let keys = engine_keys();
    assert_eq!(keys.len(), 59);
    for (i, e) in keys.iter().enumerate() {
        assert!(!is_owned_key(e.key), "{}", e.key);
        for other in &keys[i + 1..] {
            assert_ne!(e.key, other.key);
        }
    }
}

#[test]
fn runtime_keys_need_a_restart() {
    assert!(is_restart_key("datafusion.runtime.memory_limit"));
    assert!(is_restart_key(" datafusion.runtime.list_files_cache_ttl"));
    assert!(!is_restart_key("datafusion.execution.batch_size"));
    assert!(!is_restart_key("datafusion.runtime"));
}

#[test]
fn the_catalog_and_schema_names_are_owned() {
    assert!(is_owned_key("datafusion.catalog.default_catalog"));
    assert!(is_owned_key(" datafusion.catalog.default_schema "));
    assert!(is_owned_key("datafusion.sql_parser.collect_spans"));
    assert!(!is_owned_key("datafusion.catalog.information_schema"));
}

#[test]
fn an_override_wins_over_the_default() {
    let mut overrides = BTreeMap::new();
    overrides.insert("datafusion.execution.batch_size".to_string(), "1024".to_string());
    overrides.insert("custom.key".to_string(), "x".to_string());
    assert_eq!(effective(&overrides, "datafusion.execution.batch_size").as_deref(), Some("1024"));
    assert_eq!(effective(&overrides, "datafusion.execution.target_partitions").as_deref(), Some("0"));
    assert_eq!(effective(&overrides, "custom.key").as_deref(), Some("x"));
    assert_eq!(effective(&overrides, "custom.other"), None);
}

#[test]
fn values_are_checked_against_their_kind() {
    // Blank means "use the default"; a custom key is never judged.
    assert_eq!(value_error("datafusion.execution.batch_size", "  "), None);
    assert_eq!(value_error("custom.key", "anything"), None);
    // Reserved whatever the value.
    assert_eq!(
        value_error("datafusion.catalog.default_schema", "").as_deref(),
        Some("Reserved — Strata names the catalog and schema itself.")
    );
    assert_eq!(value_error("datafusion.catalog.information_schema", "true"), None);
    assert_eq!(
        value_error("datafusion.catalog.information_schema", "yes").as_deref(),
        Some("Expected true or false.")
    );
    assert_eq!(value_error("datafusion.execution.batch_size", " 4096 "), None);
    assert_eq!(
        value_error("datafusion.execution.batch_size", "0").as_deref(),
        Some("Expected a positive whole number.")
    );
    assert_eq!(
        value_error("datafusion.execution.target_partitions", "-1").as_deref(),
        Some("Expected a non-negative whole number.")
    );
    assert_eq!(
        value_error("datafusion.execution.batch_size", "1e3").as_deref(),
        Some("Expected a whole number.")
    );
    assert_eq!(
        value_error("datafusion.execution.batch_size", "99999999999999999999").as_deref(),
        Some("Expected a whole number.")
    );
    assert_eq!(value_error("datafusion.runtime.memory_limit", "2G"), None);
    assert_eq!(value_error("datafusion.runtime.memory_limit", "512MiB"), None);
    assert_eq!(value_error("datafusion.runtime.memory_limit", "1048576"), None);
    assert_eq!(
        value_error("datafusion.runtime.memory_limit", "lots").as_deref(),
        Some("Expected a size like 512M, 2G, or a number of bytes.")
    );
    assert_eq!(value_error("datafusion.runtime.list_files_cache_ttl", "2m"), None);
    assert_eq!(
        value_error("datafusion.runtime.list_files_cache_ttl", "nonsense").as_deref(),
        Some("Expected a duration like 30s or 2m.")
    );
    assert_eq!(value_error("datafusion.execution.time_zone", "+05:30"), None);
    assert_eq!(value_error("datafusion.execution.time_zone", "Europe/Paris"), None);
    assert_eq!(
        value_error("datafusion.execution.time_zone", "5:30").as_deref(),
        Some("Expected a ±HH:MM offset (e.g. +00:00) or a named zone.")
    );
    assert_eq!(value_error("datafusion.explain.format", "TREE"), None);
    assert_eq!(
        value_error("datafusion.explain.format", "graph").as_deref(),
        Some("Expected one of: indent, tree.")
    );
}

#[test]
fn a_runtime_ttl_is_read_the_way_the_field_validates_it() {
    assert_eq!(parse_duration("2m"), Some(120));
    assert_eq!(parse_duration("30s"), Some(30));
    assert_eq!(parse_duration("1h"), Some(3600));
    assert_eq!(parse_duration("nonsense"), None);
    assert_eq!(parse_duration(""), None);
}

#[test]
fn whole_numbers_read_as_i64_does() {
    let c = |s: &str| s.chars().collect::<Vec<char>>();
    assert_eq!(parse_i64_chars(&c("+7")), Some(7));
    assert_eq!(parse_i64_chars(&c("-9223372036854775808")), Some(i64::MIN));
    assert_eq!(parse_i64_chars(&c("9223372036854775808")), None);
    assert_eq!(parse_i64_chars(&c("-")), None);
    assert_eq!(parse_i64_chars(&c("")), None);
}

#[test]
fn choices_list_their_values_in_order() {
    assert_eq!(Choices::ExplainFormat.options(), vec!["indent", "tree"]);
    assert_eq!(plural(1, "row"), "1 row");
    assert_eq!(plural(3, "row"), "3 rows");
    assert_eq!(plural(0, "row"), "0 rows");
}

use strata_core::config::{config_writes, entry_lookup, restart_owed, runtime_plan, session_settings, EngineConfig};

fn entries(pairs: &[(&str, &str)]) -> Vec<(String, String)> {
    pairs.iter().map(|(k, v)| (k.to_string(), v.to_string())).collect()
}

const BATCH: &str = "datafusion.execution.batch_size";
const MEMORY: &str = "datafusion.runtime.memory_limit";

#[test]
fn set_config_moves_a_live_option_and_puts_a_removed_one_back_to_its_default() {
    let built = entries(&[(BATCH, "4096")]);
    assert_eq!(config_writes(&built, &entries(&[(BATCH, "1024")])), entries(&[(BATCH, "1024")]));
    let back = config_writes(&entries(&[(BATCH, "1024")]), &[]);
    assert_eq!(back, entries(&[(BATCH, key_def(BATCH).expect("catalogued").default)]));
    assert!(config_writes(&built, &built).is_empty(), "nothing moved, nothing written");
    assert!(
        config_writes(&[], &entries(&[("datafusion.custom.thing", "x")])) == entries(&[("datafusion.custom.thing", "x")])
    );
    assert!(config_writes(&entries(&[("datafusion.custom.thing", "x")]), &[]).is_empty(), "a custom key has no default");
}

#[test]
fn set_config_leaves_the_catalog_names_alone() {
    let next = entries(&[("datafusion.catalog.default_schema", "elsewhere"), (MEMORY, "2G")]);
    assert!(config_writes(&[], &next).is_empty());
    assert!(session_settings(&next).is_empty());
}

#[test]
fn a_runtime_key_owes_a_restart_until_the_engine_is_rebuilt() {
    assert!(!restart_owed(&[], &[]));
    let current = entries(&[(MEMORY, "2G")]);
    assert!(restart_owed(&current, &[]), "the RuntimeEnv is fixed at build, so this is owed");
    let current = entries(&[(BATCH, "1024"), (MEMORY, "2G")]);
    assert!(restart_owed(&current, &[]), "a second write still owes the same restart");
    assert!(!restart_owed(&current, &current), "rebuilding settles it");
    assert!(!restart_owed(&entries(&[(BATCH, "1")]), &[]), "a session key never owes one");
    assert!(restart_owed(&[], &entries(&[(MEMORY, "2G")])), "removing a runtime key owes one too");
}

#[test]
fn a_new_session_takes_every_override_but_the_runtime_and_owned_ones() {
    let o = entries(&[
        ("datafusion.catalog.default_catalog", "x"),
        (BATCH, "8"),
        (MEMORY, "2G"),
        ("datafusion.sql_parser.dialect", "postgresql"),
    ]);
    assert_eq!(
        session_settings(&o),
        entries(&[(BATCH, "8"), ("datafusion.sql_parser.dialect", "postgresql")])
    );
}

#[test]
fn the_runtime_plan_reads_only_what_the_overrides_say() {
    let e = |k: &str, v: &str| (k.to_string(), v.to_string());
    let plan = runtime_plan(&[
        e("datafusion.runtime.memory_limit", " 2G "),
        e("datafusion.runtime.temp_directory", "   "),
        e("datafusion.runtime.list_files_cache_ttl", "2m"),
        e("datafusion.execution.batch_size", "10"),
    ]);
    assert_eq!(plan.list_cache_default.as_deref(), Some("1M"));
    assert_eq!(plan.memory_limit.as_deref(), Some("2G"));
    assert_eq!(plan.temp_directory, None, "a blank override says nothing");
    assert_eq!(plan.max_temp_directory_size, None);
    assert_eq!(plan.metadata_cache_limit, None);
    assert_eq!(plan.list_files_cache_limit, None);
    assert_eq!(plan.list_files_cache_ttl, Some(Ok(120)));

    let bad = runtime_plan(&[e("datafusion.runtime.list_files_cache_ttl", " soon ")]);
    assert_eq!(
        bad.list_files_cache_ttl,
        Some(Err("datafusion.runtime.list_files_cache_ttl: expected a duration like 30s or 2m, got soon".to_string()))
    );
    assert_eq!(runtime_plan(&[]).list_files_cache_ttl, None);
}

#[test]
fn set_config_applies_live_options_and_reports_a_runtime_change() {
    let e = |k: &str, v: &str| (k.to_string(), v.to_string());
    let mut cfg = EngineConfig::new(vec![
        e("datafusion.execution.batch_size", "10"),
        e("datafusion.runtime.memory_limit", "2G"),
    ]);
    assert_eq!(entry_lookup(&cfg.session, "datafusion.execution.batch_size").as_deref(), Some("10"));
    assert_eq!(entry_lookup(&cfg.session, "datafusion.runtime.memory_limit"), None);

    let next = vec![
        e("datafusion.runtime.memory_limit", "4G"),
        e("datafusion.catalog.default_schema", "elsewhere"),
        e("datafusion.explain.format", "tree"),
    ];
    assert!(cfg.set_config(next.clone()), "the runtime was built with 2G");
    assert_eq!(cfg.overrides, next);
    assert_eq!(
        entry_lookup(&cfg.session, "datafusion.execution.batch_size").as_deref(),
        Some("8192"),
        "a removed override goes back to its default"
    );
    assert_eq!(entry_lookup(&cfg.session, "datafusion.explain.format").as_deref(), Some("tree"));
    assert_eq!(entry_lookup(&cfg.session, "datafusion.catalog.default_schema"), None, "owned keys never apply");
    assert_eq!(entry_lookup(&cfg.session, "datafusion.runtime.memory_limit"), None, "runtime keys never apply");

    assert!(!cfg.set_config(vec![e("datafusion.runtime.memory_limit", "2G")]), "back to what it was built with");
}

#[test]
fn every_built_in_default_passes_its_own_check() {
    for e in engine_keys() {
        assert_eq!(value_error(e.key, e.default), None, "{} = {:?}", e.key, e.default);
        assert_eq!(key_def(e.key).map(|d| d.default), Some(e.default));
    }
}
