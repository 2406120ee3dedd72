use strata_core::ddl::{elsewhere, in_database, left_invalid, unimplemented, StmtKind};
use strata_core::external::SourceFormat;
use strata_core::names::fold_ident;
use strata_core::tables::{
    dir_path, drop_intent, drop_report, duplicate_column, hash32, needs_project, not_a_column_type, slug,
    table_dir, table_slug, Staging, TableOrigin,
};

#[test]
fn a_slug_is_the_name_where_it_can_be_and_never_collides_where_it_cannot() {
    assert_eq!(slug("orders"), "orders");
    assert_eq!(slug("daily_totals_2024"), "daily_totals_2024");
    assert_eq!(slug("sales-eu"), "sales-eu");

    assert_ne!(slug("sales eu"), slug("sales/eu"), "both sanitize alike");
    assert!(slug("sales eu").starts_with("sales_eu-"));
    // Never a name the temp-directory sweep would claim, whatever the user typed.
    assert!(!slug(".tmp-1-0").starts_with('.'));
}

#[test]
fn the_slug_hash_is_pinned() {
    assert_eq!(hash32(""), 0x4fd0_bfc1);
    assert_eq!(slug("sales eu"), "sales_eu-2dc32f1b");
}

#[test]
fn an_empty_name_is_hashed_rather_than_left_empty() {
    assert_eq!(slug(""), "-4fd0bfc1");
}

#[test]
fn a_table_slug_is_the_slug_of_the_folded_name() {
    assert_eq!(fold_ident("MyView"), "myview");
    assert_eq!(fold_ident("Sales 2024"), "Sales 2024");
    assert_eq!(fold_ident("a.b"), "a.b");
    assert_eq!(table_slug("Orders"), "orders");
    assert_eq!(table_slug("Sales 2024"), slug("Sales 2024"));
    assert_eq!(table_dir("/p/.strata/tables", "Orders"), "/p/.strata/tables/orders");
    assert_eq!(dir_path("/p/.strata/tables/orders"), "/p/.strata/tables/orders/");
}

#[test]
fn a_published_staging_directory_is_no_longer_removed() {
    let mut s = Staging::new("/p/.strata/tables/.tmp-1-0".to_string());
    assert!(s.armed);
    s.published();
    assert!(!s.armed);
    assert_eq!(s.dir, "/p/.strata/tables/.tmp-1-0");
}

#[test]
fn refusals_and_reports_are_worded_once() {
    assert_eq!(duplicate_column("a"), "Duplicate column name 'a'. Alias one of them");
    assert_eq!(not_a_column_type("INT)"), "'INT)' is not a column type");
    assert_eq!(unimplemented(StmtKind::SetConfig), "SET is not implemented yet");
    assert_eq!(
        elsewhere("Tables"),
        "Strata has one schema, 'public'. Tables cannot be created elsewhere"
    );
    assert_eq!(left_invalid(&[]), "");
    assert_eq!(left_invalid(&["v".to_string()]), ". 1 view is left invalid: 'v'");
    assert_eq!(
        drop_report(
            "theirs",
            TableOrigin::External,
            &["direct".to_string(), "nested".to_string()]
        ),
        "Table 'theirs' removed from the catalog. Source files were not deleted. \
         2 views are left invalid: 'direct', 'nested'"
    );
    assert_eq!(drop_report("t", TableOrigin::Internal, &[]), "Table 't' and its data were deleted");
    assert!(drop_intent(TableOrigin::Internal).contains("are deleted"));
    assert!(drop_intent(TableOrigin::External).contains("are not deleted"));
}

use strata_core::tables::{
    create_report, create_step, drop_step, insert_outcome, start_create, start_drop, unique_columns, CreateAction,
    CreateEvent, CreateFlow,
    CreateStep, DropAction, DropEvent, insert_gate, InsertRefusal,
    DropStage, DropStep, Existing,
};

#[test]
fn existing_names_resolve_before_anything_is_written() {
    assert_eq!(
        create_step("t", Some(Existing::Table), true, false),
        Ok(CreateStep::Nothing("Table 't' already exists".to_string()))
    );
    assert_eq!(
        create_step("t", Some(Existing::Table), false, false),
        Err("Table 't' already exists".to_string())
    );
    assert_eq!(create_step("t", Some(Existing::Table), false, true), Ok(CreateStep::Write { replacing: true }));
    assert_eq!(create_step("brand_new", None, false, true), Ok(CreateStep::Write { replacing: false }));
    assert_eq!(create_step("v", Some(Existing::View), false, true), Err("'v' is a view".to_string()));
    assert_eq!(create_report("t", true, 1), "Table 't' replaced, 1 row");
    assert_eq!(create_report("brand_new", false, 1), "Table 'brand_new' created, 1 row");
    assert_eq!(create_report("daily", false, 3), "Table 'daily' created, 3 rows");
    assert_eq!(create_report("blank", false, 0), "Table 'blank' created, 0 rows");
}

#[test]
fn a_drop_resolves_its_target_before_it_touches_anything() {
    assert_eq!(
        drop_step("ghost", None, false, true),
        Ok(DropStep::Nothing("Table 'ghost' does not exist".to_string()))
    );
    assert_eq!(drop_step("ghost", None, false, false), Err("Table 'ghost' does not exist".to_string()));
    assert_eq!(
        drop_step("v", Some(Existing::View), false, false),
        Err("'v' is a view. Use DROP VIEW".to_string())
    );
    assert_eq!(drop_step("owned", Some(Existing::Table), true, false), Ok(DropStep::Drop(TableOrigin::Internal)));
    assert_eq!(drop_step("theirs", Some(Existing::Table), false, true), Ok(DropStep::Drop(TableOrigin::External)));
}

#[test]
fn a_repeated_column_is_refused_by_its_engine_identity() {
    let cols = |names: &[&str]| names.iter().map(|n| n.to_string()).collect::<Vec<String>>();
    assert_eq!(unique_columns(&cols(&["a", "b", "c"])), Ok(()));
    assert_eq!(
        unique_columns(&cols(&["id", "Total", "total"])),
        Err("Duplicate column name 'total'. Alias one of them".to_string())
    );
    assert_eq!(unique_columns(&cols(&["Sales 2024", "sales 2024"])), Ok(()));
}

use strata_core::ddl::database_catalog;

#[test]
fn the_workspace_catalog_is_never_named_as_a_connection() {
    let registered = vec!["strata".to_string(), "pg".to_string()];
    assert_eq!(database_catalog("STRATA", &registered), None);
    assert_eq!(database_catalog("strata", &registered), None);
    assert_eq!(database_catalog("PG", &registered), Some("pg".to_string()));
    assert_eq!(database_catalog("nosuch", &registered), None);
}

use strata_core::tables::{probe_statement, probe_verdict, unenforced_clause, ProbePlan};

fn planned(types: &[&str]) -> ProbePlan {
    ProbePlan {
        creates_table: true,
        constraints: false,
        defaults: false,
        declared_only: true,
        column_types: types.iter().map(|t| t.to_string()).collect(),
    }
}

#[test]
fn the_type_probe_plans_one_column_and_answers_with_its_short_type() {
    assert_eq!(probe_statement(" double "), Ok("CREATE TABLE __strata_probe (c double)".to_string()));
    assert_eq!(probe_statement("   "), Err("Enter a column type".to_string()));
    assert_eq!(probe_verdict("INT", &planned(&["Int32"])), Ok("Int32".to_string()));
    assert_eq!(probe_verdict(" double ", &planned(&["Float64"])), Ok("Float64".to_string()));
    assert_eq!(
        probe_verdict("TIMESTAMP", &planned(&["Timestamp(Nanosecond, None)"])),
        Ok("Timestamp".to_string())
    );
    assert_eq!(
        probe_verdict("INT, b INT", &planned(&["Int32", "Int32"])),
        Err("'INT, b INT' is not a column type".to_string())
    );
    assert_eq!(
        probe_verdict("INT) AS SELECT 1", &ProbePlan { declared_only: false, ..planned(&["Int64"]) }),
        Err("'INT) AS SELECT 1' is not a column type".to_string())
    );
    assert_eq!(
        probe_verdict("INT PRIMARY KEY", &ProbePlan { constraints: true, ..planned(&["Int32"]) }),
        Err("Table constraints are not supported".to_string())
    );
    assert_eq!(unenforced_clause(false, true), Some("Column defaults are not supported"));
    assert_eq!(unenforced_clause(false, false), None);
}

#[test]
fn a_name_inside_a_database_connection_is_refused_as_read_only() {
    assert_eq!(
        in_database("pg.public.orders", "pg"),
        "'pg.public.orders' is in the database connection 'pg'. Strata reads remote tables; it does not create, drop or write them"
    );
}

#[test]
fn a_table_create_without_a_project_folder_names_the_statement() {
    assert_eq!(
        needs_project(StmtKind::Ctas),
        "CREATE TABLE AS needs a project folder to store the table's data"
    );
    assert_eq!(
        needs_project(StmtKind::CreateTable),
        "CREATE TABLE needs a project folder to store the table's data"
    );
}

#[test]
fn a_drop_puts_the_provider_back_when_its_data_cannot_go() {
    let (mut f, a) = start_drop("orders", Some(Existing::Table), true, false, true);
    assert!(matches!(a, DropAction::ListDependents));
    assert!(matches!(f.step(DropEvent::Dependents(vec!["recent".to_string()])), DropAction::Deregister));
    assert!(matches!(
        f.step(DropEvent::Deregistered { result: Ok(()), data_present: true }),
        DropAction::Discard
    ));
    assert!(matches!(f.step(DropEvent::Discarded(Err("disk full".to_string()))), DropAction::Reregister));
    match f.step(DropEvent::Reregistered) {
        DropAction::Finish(Err(e)) => assert_eq!(e, "disk full"),
        _ => panic!("the failure is reported once the provider is back"),
    }
    assert_eq!(f.stage, DropStage::Done);

    let (mut f, _) = start_drop("orders", Some(Existing::Table), true, false, true);
    f.step(DropEvent::Dependents(vec![]));
    f.step(DropEvent::Deregistered { result: Ok(()), data_present: true });
    match f.step(DropEvent::Discarded(Ok(()))) {
        DropAction::Finish(Ok(end)) => {
            assert_eq!(end.message, drop_report("orders", TableOrigin::Internal, &[]));
            assert_eq!(end.removed, Some(vec![]));
        },
        _ => panic!("a discarded table is dropped"),
    }
}

#[test]
fn a_refused_drop_touches_nothing() {
    match start_drop("v", Some(Existing::View), false, false, true).1 {
        DropAction::Finish(Err(e)) => assert_eq!(e, "'v' is a view. Use DROP VIEW"),
        _ => panic!("a view is refused before anything is touched"),
    }
    match start_drop("gone", None, false, true, true).1 {
        DropAction::Finish(Ok(end)) => {
            assert_eq!(end.message, "Table 'gone' does not exist");
            assert!(end.removed.is_none());
        },
        _ => panic!("IF EXISTS over nothing is a no-op"),
    }
    match start_drop("t", Some(Existing::Table), true, false, false).1 {
        DropAction::Finish(Err(e)) => assert_eq!(e, "Table 't' has no project folder to delete its data from"),
        _ => panic!("no folder, no drop"),
    }
    let (mut f, _) = start_drop("ext", Some(Existing::Table), false, false, true);
    f.step(DropEvent::Dependents(vec![]));
    match f.step(DropEvent::Deregistered { result: Ok(()), data_present: true }) {
        DropAction::Finish(Ok(end)) => assert!(end.removed.is_some(), "an external table's files are the user's"),
        _ => panic!("an external drop never discards"),
    }
}

fn create(name: &str, existing: Option<Existing>, if_not_exists: bool, or_replace: bool) -> (CreateFlow, CreateAction) {
    start_create(false, false, Ok(name.to_string()), &["n".to_string()], existing, if_not_exists, or_replace)
}

#[test]
fn a_create_cleans_up_only_a_table_nothing_will_name() {
    let (mut f, a) = create("t", None, false, false);
    assert!(matches!(a, CreateAction::Spool));
    assert!(matches!(f.step(CreateEvent::Spooled(Ok(3))), CreateAction::Register));
    assert!(matches!(f.step(CreateEvent::Registered(Err("bad file".to_string()))), CreateAction::RemoveDir));
    match f.step(CreateEvent::DirRemoved) {
        CreateAction::Finish(Err(e)) => assert_eq!(e, "bad file"),
        _ => panic!("the failure is reported once the directory is gone"),
    }

    let (mut f, _) = create("t", Some(Existing::Table), false, true);
    f.step(CreateEvent::Spooled(Ok(1)));
    match f.step(CreateEvent::Registered(Err("bad file".to_string()))) {
        CreateAction::Finish(Err(e)) => assert_eq!(e, "bad file", "a replacement keeps the data it points at"),
        _ => panic!("a replacement keeps its directory"),
    }

    match create("t", Some(Existing::Table), true, false).1 {
        CreateAction::Finish(Ok(end)) => {
            assert_eq!(end.message, "Table 't' already exists");
            assert!(end.count.is_none() && end.def.is_none());
        },
        _ => panic!("IF NOT EXISTS over a table writes nothing"),
    }
    match create("v", Some(Existing::View), false, true).1 {
        CreateAction::Finish(Err(m)) => assert_eq!(m, "'v' is a view"),
        _ => panic!("a view is never replaced by a table"),
    }
}

#[test]
fn a_ctas_writes_registers_and_reports_an_internal_table() {
    let (mut f, _) = create("Sales", Some(Existing::Table), false, true);
    f.step(CreateEvent::Spooled(Ok(2)));
    match f.step(CreateEvent::Registered(Ok(()))) {
        CreateAction::Finish(Ok(end)) => {
            assert_eq!(end.message, "Table 'Sales' replaced, 2 rows");
            assert_eq!(end.count, Some(2));
            let def = end.def.expect("a written table");
            assert_eq!(def.name, "Sales");
            assert_eq!(def.format, SourceFormat::Arrow);
            assert_eq!(def.connection, None);
            assert_eq!(def.sources, vec![format!(".strata/tables/{}/", table_slug("Sales"))]);
            assert!(def.partition_cols.is_empty());
            assert_eq!(def.origin, TableOrigin::Internal);
        },
        _ => panic!("a registered table is created"),
    }
}

#[test]
fn unsupported_clauses_refuse_before_anything_is_written() {
    let cols = |c: &[&str]| c.iter().map(|s| s.to_string()).collect::<Vec<String>>();
    let refused = |f: (CreateFlow, CreateAction)| match f.1 {
        CreateAction::Finish(Err(m)) => m,
        _ => panic!("refused before the spool"),
    };
    let t = || Ok::<String, String>("t".to_string());
    assert_eq!(
        refused(start_create(true, true, t(), &cols(&["a", "A"]), None, false, false)),
        "Table constraints are not supported"
    );
    assert_eq!(
        refused(start_create(false, true, t(), &cols(&["a"]), None, false, false)),
        "Column defaults are not supported"
    );
    assert_eq!(
        refused(start_create(false, false, Err("elsewhere".to_string()), &cols(&["a", "A"]), None, false, false)),
        "elsewhere"
    );
    assert_eq!(
        refused(start_create(false, false, t(), &cols(&["a", "b", "A"]), Some(Existing::View), false, false)),
        duplicate_column("A")
    );
}

#[test]
fn an_insert_reports_its_rows_and_asks_for_a_rescan() {
    let one = insert_outcome("t", 1);
    assert_eq!(one.message, "Inserted 1 row into 't'");
    assert_eq!(one.count, 1);
    assert_eq!(one.rescan, "t");
    assert_eq!(insert_outcome("t", 2).message, "Inserted 2 rows into 't'");
}

#[test]
fn an_insert_takes_rows_only_into_its_own_tables_and_only_by_appending() {
    assert_eq!(insert_gate(false, true), Some(InsertRefusal::External));
    assert_eq!(insert_gate(false, false), Some(InsertRefusal::External), "the target is judged first");
    assert_eq!(insert_gate(true, false), Some(InsertRefusal::Overwrite));
    assert_eq!(insert_gate(true, true), None);
}
