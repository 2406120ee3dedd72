use strata_core::plan::{as_explain, detail_parts, guide_rails, is_explain, split_name_detail, PlanKind};

#[test]
fn parses_detail_into_kv_parts() {
    let parts = detail_parts("mode=Partitioned, join_type=Inner, on=[(user_id@0, user_id@0)]");
    assert_eq!(parts.len(), 3);
    assert!(parts[0].has_key && parts[0].key == "mode" && parts[0].val == "Partitioned");
    assert_eq!(parts[1].key, "join_type");
    // The comma inside the brackets must not split the `on` value.
    assert_eq!(parts[2].key, "on");
    assert_eq!(parts[2].val, "[(user_id@0, user_id@0)]");
    // A bare fragment with no leading identifier stays key-less.
    let bare = detail_parts("TableScan: t");
    assert!(!bare[0].has_key);
}

#[test]
fn guide_rails_track_following_siblings() {
    // root → child → two grandchildren, given by their depths.
    let depths = vec![0usize, 1, 2, 2];
    assert_eq!(guide_rails(&depths, 0), Vec::<bool>::new());
    assert_eq!(guide_rails(&depths, 2), vec![false, true]);
    assert_eq!(guide_rails(&depths, 3), vec![false, false]);
}

#[test]
fn detects_explain() {
    assert!(is_explain("EXPLAIN SELECT 1"));
    assert!(is_explain("  explain analyze select * from t"));
    assert!(is_explain("-- plan\nEXPLAIN SELECT 1"));
    assert!(!is_explain("SELECT * FROM explain_table"));
}

#[test]
fn as_explain_strips_and_reapplies() {
    assert_eq!(as_explain("SELECT 1", false), "EXPLAIN\nSELECT 1");
    assert_eq!(as_explain("SELECT 1", true), "EXPLAIN ANALYZE\nSELECT 1");
    assert_eq!(as_explain("EXPLAIN SELECT 1", true), "EXPLAIN ANALYZE\nSELECT 1");
    assert_eq!(as_explain("explain analyze select 1", false), "EXPLAIN\nselect 1");
    assert_eq!(as_explain("  EXPLAIN VERBOSE select 1", false), "EXPLAIN\nselect 1");
    // Don't strip an identifier that merely starts with "explain".
    assert_eq!(as_explain("SELECT * FROM explain_t", false), "EXPLAIN\nSELECT * FROM explain_t");
}

#[test]
fn splits_name_and_detail() {
    let (n, d) = split_name_detail("ParquetExec: file_groups={…}, projection=[a, b]");
    assert_eq!(n, "ParquetExec");
    assert_eq!(d, "file_groups={…}, projection=[a, b]");
    let (n, d) = split_name_detail("CoalesceBatchesExec");
    assert_eq!(n, "CoalesceBatchesExec");
    assert_eq!(d, "");
}

#[test]
fn classifies_operators() {
    assert_eq!(PlanKind::classify("ParquetExec"), PlanKind::Source);
    assert_eq!(PlanKind::classify("DataSourceExec"), PlanKind::Source);
    assert_eq!(PlanKind::classify("TableScan"), PlanKind::Source);
    assert_eq!(PlanKind::classify("HashJoinExec"), PlanKind::Join);
    assert_eq!(PlanKind::classify("RepartitionExec"), PlanKind::Exchange);
    assert_eq!(PlanKind::classify("AggregateExec"), PlanKind::Agg);
    assert_eq!(PlanKind::classify("SortExec"), PlanKind::Sort);
    assert_eq!(PlanKind::classify("ProjectionExec"), PlanKind::Proj);
    assert_eq!(PlanKind::classify("GlobalLimitExec"), PlanKind::Limit);
    assert_eq!(PlanKind::classify("CoalesceBatchesExec"), PlanKind::Util);
}

#[test]
fn each_plan_kind_has_its_own_accent() {
    assert_eq!(PlanKind::Source.color(), "var(--t-str)");
    assert_eq!(PlanKind::Join.color(), "var(--t-bool)");
    assert_eq!(PlanKind::Exchange.color(), "var(--t-num)");
    assert_eq!(PlanKind::Agg.color(), "var(--t-ts)");
    assert_eq!(PlanKind::Sort.color(), "var(--t-struct)");
    assert_eq!(PlanKind::Proj.color(), "var(--accent)");
    assert_eq!(PlanKind::Limit.color(), "var(--t-map)");
    assert_eq!(PlanKind::Util.color(), "var(--dim)");
}

#[test]
fn a_leading_block_comment_is_ignored_too() {
    assert!(is_explain("/* plan */ EXPLAIN SELECT 1"));
    assert!(is_explain("/**/explain select 1"));
    assert!(is_explain("/* one */ ( /* two\n spans lines */ EXPLAIN SELECT 1)"));
    assert!(is_explain("-- first\n/* then */\nEXPLAIN SELECT 1"));
    assert!(!is_explain("/* EXPLAIN */ SELECT 1"));
    assert!(!is_explain("/* never closed EXPLAIN SELECT 1"));
    assert!(!is_explain("/*/ EXPLAIN"));
}

#[test]
fn rewriting_a_rewrite_only_swaps_the_prefix() {
    let sqls = ["select 1", "  EXPLAIN ANALYZE VERBOSE select 2", "explain", "", "/* c */ select 3"];
    for s in sqls {
        for a in [false, true] {
            let once = as_explain(s, a);
            assert!(is_explain(&once), "{once:?}");
            for m in [false, true] {
                assert_eq!(as_explain(&once, m), as_explain(s, m), "{s:?} {a} {m}");
            }
        }
    }
}

#[test]
fn classification_ignores_ascii_case() {
    for name in ["ParquetExec", "HashJoinExec", "RepartitionExec", "AggregateExec", "SortExec", "ProjectionExec", "GlobalLimitExec", "FilterExec"] {
        let k = PlanKind::classify(name);
        assert_eq!(PlanKind::classify(&name.to_ascii_lowercase()), k);
        assert_eq!(PlanKind::classify(&name.to_ascii_uppercase()), k);
    }
}
