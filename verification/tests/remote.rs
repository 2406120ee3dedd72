use strata_core::remote::{enumerate, is_view_kind, listing_views, login_refusal, LoginFailure, SchemaVisibility};

fn rows(r: &[(&str, &str, &str)]) -> Vec<(String, String, String)> {
    r.iter().map(|(a, b, c)| (a.to_string(), b.to_string(), c.to_string())).collect()
}

#[test]
fn a_listing_keys_schemas_and_relations_by_their_folded_names_in_order() {
    let l = enumerate(&rows(&[
        ("public", "orders", "r"),
        ("Sales", "Q1", "v"),
        ("public", "Customers", "r"),
        ("public", "customers", "m"),
        ("SALES", "ignored", "r"),
        ("archive", "x", "f"),
    ]));
    let keys: Vec<&str> = l.schemas().iter().map(|s| s.folded.as_str()).collect();
    assert_eq!(keys, vec!["archive", "public", "sales"]);
    let public = &l.schemas()[1];
    let rels: Vec<(&str, &str, &str)> = public
        .relations
        .iter()
        .map(|(k, r)| (k.as_str(), r.name.as_str(), r.relkind.as_str()))
        .collect();
    assert_eq!(rels, vec![("customers", "Customers", "r"), ("orders", "orders", "r")], "the first spelling keeps the name");
    let sales = &l.schemas()[2];
    assert_eq!(sales.name, "Sales");
    assert_eq!(sales.relations.len(), 1, "a schema hidden by another spelling adds nothing");
}

#[test]
fn views_mark_what_is_enabled_and_name_what_is_missing() {
    let l = enumerate(&rows(&[("public", "orders", "r"), ("staging", "t", "r")]));
    let enabled = vec!["PUBLIC".to_string(), "reports".to_string(), "Reports".to_string()];
    let views = listing_views(&l, &enabled);
    let shown: Vec<(&str, usize, SchemaVisibility)> =
        views.iter().map(|v| (v.name.as_str(), v.relations.len(), v.visibility)).collect();
    assert_eq!(
        shown,
        vec![
            ("public", 1, SchemaVisibility::Live),
            ("reports", 0, SchemaVisibility::EnabledButMissing),
            ("staging", 1, SchemaVisibility::NotEnabled),
        ]
    );
}

#[test]
fn only_views_and_materialized_views_are_views() {
    assert!(is_view_kind("v"));
    assert!(is_view_kind("m"));
    for k in ["r", "p", "f", "", "vv"] {
        assert!(!is_view_kind(k), "{k}");
    }
}

#[test]
fn a_refused_login_names_the_thing_to_fix() {
    assert_eq!(
        login_refusal("postgres://h:5432/db", "u", LoginFailure::Unreachable { host: "h".into(), port: "5432".into() }),
        "Cannot reach a PostgreSQL server at 'h:5432'. Check the address, and that the server is running."
    );
    assert_eq!(
        login_refusal("postgres://h:5432/db", "  alice ", LoginFailure::BadLogin),
        "The server refused the user 'alice'. Check the user and its password."
    );
    assert_eq!(login_refusal("u", "a", LoginFailure::Password("No password".into())), "No password");
    assert_eq!(
        login_refusal("postgres://h/db", "a", LoginFailure::Other("tls".into())),
        "Cannot connect to 'postgres://h/db': tls"
    );
}
