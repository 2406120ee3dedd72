use strata_core::copy::is_url_scheme;

#[test]
fn only_a_real_scheme_reads_as_a_url() {
    for yes in ["s3", "gs", "http", "https", "file", "s3a", "x+y", "a-b.c"] {
        assert!(is_url_scheme(yes), "{yes}");
    }
    for no in [
        "",
        "3s",     // must start with a letter
        "/tmp/a", // a path is not a scheme
        "sales/eu",
        "/proj/.strata/tables/sales/x", // the shape that skipped the fence
        "a b",
        "a_b", // `_` is not in the scheme charset
    ] {
        assert!(!is_url_scheme(no), "{no}");
    }
}

use strata_core::copy::{copy_fences, fold_parts, local_path, refuse_owned_target, FencedDir, PathPart};

#[test]
fn only_a_file_url_or_a_plain_path_is_local() {
    assert_eq!(local_path("s3://bucket/x.parquet"), None);
    assert_eq!(local_path("FILE:///tmp/x.csv"), Some("/tmp/x.csv".to_string()));
    assert_eq!(local_path("file://tmp/x.csv"), Some("/tmp/x.csv".to_string()));
    assert_eq!(local_path("out/x.csv"), Some("out/x.csv".to_string()));
    assert_eq!(
        local_path("/p/.strata/tables/sales/x://y"),
        Some("/p/.strata/tables/sales/x://y".to_string())
    );
}

fn parts(path: &str) -> Vec<PathPart> {
    let mut v = Vec::new();
    if path.starts_with('/') {
        v.push(PathPart::Root);
    }
    for seg in path.split('/').filter(|s| !s.is_empty()) {
        v.push(match seg {
            "." => PathPart::Current,
            ".." => PathPart::Parent,
            other => PathPart::Name(other.to_string()),
        });
    }
    v
}

#[test]
fn dot_segments_fold_away() {
    assert_eq!(fold_parts(&parts("/p/.strata/../.strata/tables")), vec!["p", ".strata", "tables"]);
    assert_eq!(fold_parts(&parts("/../a/./b")), vec!["a", "b"]);
}

#[test]
fn a_write_under_a_fenced_directory_is_refused_in_its_words() {
    let fenced = vec![FencedDir {
        names: vec!["p".to_string(), ".strata".to_string()],
        display: "/p/.strata".to_string(),
        holds: "holds this project's own data".to_string(),
    }];
    let target = fold_parts(&parts("/p/.strata/../.strata/tables/sales/extra.arrow"));
    assert_eq!(
        refuse_owned_target(&target, &fenced),
        Err("COPY can't write into '/p/.strata', which holds this project's own data".to_string())
    );
    let elsewhere = fold_parts(&parts("/p/out/sales.csv"));
    assert_eq!(refuse_owned_target(&elsewhere, &fenced), Ok(()));
    let sibling = fold_parts(&parts("/p/.strata2/x"));
    assert_eq!(refuse_owned_target(&sibling, &fenced), Ok(()));
}

#[test]
fn a_local_target_with_a_colon_slash_slash_is_still_fenced() {
    let strata = fold_parts(&parts("/tmp/strata-copy-fence/.strata"));
    let fenced = vec![FencedDir {
        names: strata,
        display: "/tmp/strata-copy-fence/.strata".to_string(),
        holds: "holds this project's own data".to_string(),
    }];
    let owned = "/tmp/strata-copy-fence/.strata/tables/sales/x://y";
    let local = local_path(owned).expect("a path whose scheme is not shaped like one is local");
    refuse_owned_target(&fold_parts(&parts(&local)), &fenced)
        .expect_err("a local path inside .strata is refused whatever is in its name");
    assert_eq!(local_path("s3://acme-lake/out.parquet"), None, "a remote target is not local storage");
    let elsewhere = vec![FencedDir {
        names: fold_parts(&parts("/tmp/strata-copy-fence/elsewhere")),
        display: "/tmp/strata-copy-fence/elsewhere".to_string(),
        holds: "holds this project's own data".to_string(),
    }];
    refuse_owned_target(&fold_parts(&parts("/tmp/strata-copy-fence/out.parquet")), &elsewhere)
        .expect("the user's own file");
}

use strata_core::copy::{columns_to_count, counted_columns, partition_counts_gate};

#[test]
fn a_column_partitioned_by_twice_is_counted_once() {
    let names = counted_columns(&["region".to_string(), "year".to_string(), "region".to_string()]);
    assert_eq!(names, vec!["region", "year"]);
}

#[test]
fn the_gate_passes_only_on_exact_counts() {
    let names = vec!["region".to_string(), "year".to_string()];
    assert_eq!(partition_counts_gate(&names, &[Some(4), Some(4), Some(4)]), Ok(()));
    let err = partition_counts_gate(&names, &[Some(4), Some(4), Some(3)]).expect_err("a NULL in year");
    assert!(err.starts_with("Can't partition by 'year'"), "{err}");
    let err = partition_counts_gate(&names, &[Some(4), None, Some(4)]).expect_err("an unread count");
    assert!(err.starts_with("Can't partition by 'region'"), "{err}");
    assert_eq!(
        partition_counts_gate(&names, &[None, Some(4), Some(4)]),
        Err("COPY could not count the partition columns' NULL values".to_string())
    );
    assert_eq!(
        partition_counts_gate(&names, &[]),
        Err("COPY could not count the partition columns' NULL values".to_string())
    );
    assert_eq!(partition_counts_gate(&[], &[Some(0)]), Ok(()));
}

#[test]
fn the_spool_is_always_fenced_and_the_project_folder_when_there_is_one() {
    let seg = |s: &[&str]| s.iter().map(|x| x.to_string()).collect::<Vec<String>>();
    let spool = (seg(&["tmp", "strata-snapshots"]), "/tmp/strata-snapshots".to_string());
    let only = copy_fences(spool.clone(), None);
    assert_eq!(only.len(), 1);
    assert_eq!(only[0].holds, "holds query results");
    let both = copy_fences(spool, Some((seg(&["proj", ".strata"]), "/proj/.strata".to_string())));
    assert_eq!(both.len(), 2);
    assert_eq!(both[1].holds, "holds this project's own data");
    assert_eq!(
        refuse_owned_target(&seg(&["proj", ".strata", "tables", "t", "x.parquet"]), &both),
        Err("COPY can't write into '/proj/.strata', which holds this project's own data".to_string())
    );
    assert_eq!(refuse_owned_target(&seg(&["proj", "out.csv"]), &both), Ok(()));
}

#[test]
fn a_copy_partitioned_by_nothing_counts_nothing() {
    assert_eq!(columns_to_count(&[]), None);
    let by = vec!["region".to_string(), "region".to_string()];
    assert_eq!(columns_to_count(&by), Some(vec!["region".to_string()]));
}
